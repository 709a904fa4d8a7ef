//! Turning flows into detection snapshots.
//!
//! The detector keeps its own direction-aware counters: a scope is
//! always the local side of a flow. An incoming flow is scoped on its
//! destination, an outgoing one on its source, an internal one on both
//! (as incoming and outgoing respectively), and a flow with no local side
//! is counted as unscoped. Counters accumulate for one window and are
//! then emitted and cleared (tumbling, not rolling). Times are
//! nanoseconds.

use std::hash::{Hash, Hasher};
use vstd::prelude::*;

verus! {

use crate::bounded_map::{elapsed_since, BoundedMap, BoundedMapConfig, BoundedView, MapKey, UpsertOutcome};
use crate::direction::{local_lookup, local_match};
use crate::text::KeyOrder;
use crate::table::{key_before, keys_ascending, lemma_before_total, lemma_sorted_insert};
use crate::precedence::lemma_insert_contains;
use crate::counters::{counters_after, sat_add, zero_counters, TrafficCounters};
use crate::direction::{ClassificationResult, Direction};
use crate::flow::NormalizedFlow;
use crate::input::{AddressFamily, DataCompleteness, DetectionSnapshot, MetricRates, SamplingStatus, ScopeId, ScopeIdView, ScopeKey, ScopeKeyView, ScopeType, TrafficDirection};
use crate::net::IpAddress;
use crate::registry::{PrefixRegistry, RegistryView};
use crate::sampling::SamplingSource;

/// The tenant of a scope whose matched prefix declares none.
pub const UNATTRIBUTED_TENANT: &'static str = "unattributed";

/// How the detector's own counters are bounded and shaped. A `max_*`
/// of zero disables that scope type.
#[derive(Debug, Clone, PartialEq, Eq, Structural)]
pub struct WindowConfig {
    /// How long counters accumulate before being emitted.
    pub window: u128,
    pub max_hosts: usize,
    pub max_networks: usize,
    pub max_slash24: usize,
    pub max_hostgroups: usize,
}

impl Default for WindowConfig {
    fn default() -> (r: Self)
        ensures
            r == (WindowConfig { window: 5_000_000_000, max_hosts: 100_000, max_networks: 20_000, max_slash24: 20_000, max_hostgroups: 1_000 }),
    {
        WindowConfig { window: 5_000_000_000, max_hosts: 100_000, max_networks: 20_000, max_slash24: 20_000, max_hostgroups: 1_000 }
    }
}

/// What the windowing layer did, for metrics.
#[derive(Debug, Clone, Copy, PartialEq, Eq, Structural)]
pub struct WindowStats {
    pub flows_ingested: u64,
    /// Flows whose direction gave no local side to scope on.
    pub flows_unscoped: u64,
    pub snapshots_emitted: u64,
    /// Times a new scope displaced an existing one in a full map.
    pub evicted: u64,
    /// Times a new scope was refused by a map with no capacity.
    pub rejected: u64,
    /// Ticks whose elapsed time differed from the window by more than a
    /// tenth.
    pub skewed_ticks: u64,
}

impl Default for WindowStats {
    fn default() -> (r: Self)
        ensures
            r == (WindowStats { flows_ingested: 0, flows_unscoped: 0, snapshots_emitted: 0, evicted: 0, rejected: 0, skewed_ticks: 0 }),
    {
        WindowStats { flows_ingested: 0, flows_unscoped: 0, snapshots_emitted: 0, evicted: 0, rejected: 0, skewed_ticks: 0 }
    }
}

/// `value` per second over `elapsed` nanoseconds, computed at nanosecond
/// resolution and saturating at `u64::MAX`; zero over no time.
pub open spec fn per_second_spec(value: u64, elapsed: u128) -> u64 {
    if elapsed == 0 {
        0
    } else {
        let scaled = if value * 1_000_000_000 > u128::MAX { u128::MAX as int } else { value * 1_000_000_000 };
        let rate = scaled / (elapsed as int);
        if rate > u64::MAX { u64::MAX } else { rate as u64 }
    }
}

/// Bits per second of `bytes` over `elapsed`, the bit count saturating.
pub open spec fn bits_per_second_spec(bytes: u64, elapsed: u128) -> u64 {
    per_second_spec(if bytes * 8 > u64::MAX { u64::MAX } else { (bytes * 8) as u64 }, elapsed)
}

/// `value` per second over `elapsed` nanoseconds.
pub fn per_second(value: u64, elapsed: u128) -> (r: u64)
    ensures
        r == per_second_spec(value, elapsed),
{
    if elapsed == 0 {
        return 0;
    }
    let scaled = match (value as u128).checked_mul(1_000_000_000) {
        Some(x) => x,
        None => u128::MAX,
    };
    let rate = scaled / elapsed;
    if rate > u64::MAX as u128 { u64::MAX } else { rate as u64 }
}

/// Bits per second of `bytes` over `elapsed` nanoseconds.
pub fn bits_per_second(bytes: u64, elapsed: u128) -> (r: u64)
    ensures
        r == bits_per_second_spec(bytes, elapsed),
{
    let bits = match bytes.checked_mul(8) {
        Some(b) => b,
        None => u64::MAX,
    };
    per_second(bits, elapsed)
}

/// More than a tenth of the window away from it, either way.
pub open spec fn skewed_spec(elapsed: u128, window: u128) -> bool {
    let tolerance = window / 10;
    elapsed > window + tolerance || elapsed + tolerance < window
}

/// Whether a tick's elapsed time is skewed against the window.
pub fn skewed(elapsed: u128, window: u128) -> (r: bool)
    ensures
        r == skewed_spec(elapsed, window),
{
    let tolerance = window / 10;
    let late = match window.checked_add(tolerance) {
        Some(limit) => elapsed > limit,
        None => false,
    };
    let early = match elapsed.checked_add(tolerance) {
        Some(sum) => sum < window,
        None => false,
    };
    late || early
}

/// The address with the bits below `prefix_len` cleared; a length
/// beyond the family's width is clamped to it.
pub open spec fn mask_spec(addr: IpAddress, prefix_len: u8) -> IpAddress {
    match addr {
        IpAddress::V4(a) => {
            let len = if prefix_len > 32 { 32 } else { prefix_len };
            IpAddress::V4(if len == 0 { 0 } else { a & (u32::MAX << ((32 - len) as u32)) })
        },
        IpAddress::V6(a) => {
            let len = if prefix_len > 128 { 128 } else { prefix_len };
            IpAddress::V6(if len == 0 { 0 } else { a & (u128::MAX << ((128 - len) as u32)) })
        },
    }
}

/// Clears the host bits below `prefix_len`.
pub fn mask(addr: IpAddress, prefix_len: u8) -> (r: IpAddress)
    ensures
        r == mask_spec(addr, prefix_len),
{
    match addr {
        IpAddress::V4(a) => {
            let len: u8 = if prefix_len > 32 { 32 } else { prefix_len };
            if len == 0 {
                IpAddress::V4(0)
            } else {
                let sh: u32 = (32 - len) as u32;
                IpAddress::V4(a & (u32::MAX << sh))
            }
        },
        IpAddress::V6(a) => {
            let len: u8 = if prefix_len > 128 { 128 } else { prefix_len };
            if len == 0 {
                IpAddress::V6(0)
            } else {
                let sh: u32 = (128 - len) as u32;
                IpAddress::V6(a & (u128::MAX << sh))
            }
        },
    }
}

/// A hash of an exporter's address, as `DefaultHasher` computes it.
pub uninterp spec fn exporter_hash(addr: IpAddress) -> u64;

/// `DefaultHasher` over the address.
#[verifier::external_body]
fn hash_exporter(addr: IpAddress) -> (r: u64)
    ensures
        r == exporter_hash(addr),
{
    let mut hasher = std::collections::hash_map::DefaultHasher::new();
    addr.hash(&mut hasher);
    hasher.finish()
}

/// The number of set bits among the low `n` bits of `x`.
pub open spec fn ones(x: u64, n: nat) -> nat
    decreases n,
{
    if n == 0 {
        0
    } else {
        ones(x, (n - 1) as nat) + if (x >> ((n - 1) as u64)) & 1u64 == 1u64 { 1nat } else { 0nat }
    }
}

/// A 64-bit sketch of which exporters contributed to a scope: two
/// exporters hashing to the same bit count as one, so it undercounts and
/// never overcounts.
#[derive(Debug, Clone, Copy, PartialEq, Eq, Structural)]
pub struct ExporterSketch(pub u64);

impl ExporterSketch {
    pub fn observe(&mut self, exporter: IpAddress)
        ensures
            final(self).0 == old(self).0 | (1u64 << (exporter_hash(exporter) % 64)),
    {
        let bit = hash_exporter(exporter) % 64;
        self.0 = self.0 | (1u64 << bit);
    }

    pub fn count(&self) -> (r: u32)
        ensures
            r == ones(self.0, 64),
    {
        let mut n: u32 = 0;
        let mut i: u64 = 0;
        while i < 64
            invariant
                i <= 64,
                n == ones(self.0, i as nat),
                n <= i,
            decreases 64 - i,
        {
            if (self.0 >> i) & 1u64 == 1u64 {
                n = n + 1;
            }
            i = i + 1;
        }
        n
    }
}

/// One scope's traffic for the current window.
#[derive(Debug, Clone, Copy, PartialEq, Eq, Structural)]
pub struct Accumulator {
    pub counters: TrafficCounters,
    pub completeness: DataCompleteness,
    pub sampling: SamplingStatus,
    pub exporters: ExporterSketch,
}

/// An accumulator with nothing in it.
pub open spec fn fresh_accumulator() -> Accumulator {
    Accumulator {
        counters: zero_counters(),
        completeness: DataCompleteness { protocol_seen: false, tcp_flags_seen: false, fragmentation_seen: false, forwarding_status_seen: false },
        sampling: SamplingStatus { corrected: false, used_global_default: false, max_rate: 0 },
        exporters: ExporterSketch(0),
    }
}

/// An accumulator after one more flow: counters added, completeness
/// or-ed with what the flow carried (a fragmented flow is the only
/// evidence of fragmentation), sampling status merged, exporter marked.
pub open spec fn accumulated(a: Accumulator, f: NormalizedFlow) -> Accumulator {
    Accumulator {
        counters: counters_after(a.counters, f),
        completeness: a.completeness.merged(DataCompleteness {
            protocol_seen: f.protocol is Some,
            tcp_flags_seen: f.tcp_flags is Some,
            fragmentation_seen: f.fragmented,
            forwarding_status_seen: f.forwarding_status_known,
        }),
        sampling: a.sampling.merged(SamplingStatus {
            corrected: f.sampling_rate.value() > 1,
            used_global_default: f.sampling_source == SamplingSource::GlobalDefault,
            max_rate: f.sampling_rate.value(),
        }),
        exporters: ExporterSketch(a.exporters.0 | (1u64 << (exporter_hash(f.exporter) % 64))),
    }
}

impl Accumulator {
    pub fn new() -> (r: Accumulator)
        ensures
            r == fresh_accumulator(),
    {
        Accumulator {
            counters: TrafficCounters::default(),
            completeness: DataCompleteness { protocol_seen: false, tcp_flags_seen: false, fragmentation_seen: false, forwarding_status_seen: false },
            sampling: SamplingStatus { corrected: false, used_global_default: false, max_rate: 0 },
            exporters: ExporterSketch(0),
        }
    }

    pub fn add(&mut self, flow: &NormalizedFlow)
        ensures
            *final(self) == accumulated(*old(self), *flow),
    {
        self.counters.add(flow);
        self.completeness.merge(DataCompleteness {
            protocol_seen: flow.protocol.is_some(),
            tcp_flags_seen: flow.tcp_flags.is_some(),
            fragmentation_seen: flow.fragmented,
            forwarding_status_seen: flow.forwarding_status_known,
        });
        let rate = flow.sampling_rate.get();
        let global = match flow.sampling_source {
            SamplingSource::GlobalDefault => true,
            _ => false,
        };
        self.sampling.merge(SamplingStatus { corrected: rate > 1, used_global_default: global, max_rate: rate });
        self.exporters.observe(flow.exporter);
    }
}

impl MapKey for ScopeKey {
    fn same_key(&self, other: &Self) -> (r: bool) {
        self.same_as(other)
    }

    fn copy_key(&self) -> (r: Self) {
        self.duplicate()
    }
}

/// One local side of a flow: the address, the direction it is scoped
/// in, and the tenant and hostgroup its prefix declared.
pub struct Side {
    pub addr: IpAddress,
    pub direction: TrafficDirection,
    pub tenant: Option<Seq<char>>,
    pub hostgroup: Option<Seq<char>>,
}

/// The text of an optional string.
pub open spec fn opt_view(o: Option<String>) -> Option<Seq<char>> {
    match o {
        Some(s) => Some(s@),
        None => None,
    }
}

/// The local sides of a flow: the destination of an incoming flow, the
/// source of an outgoing one, both for an internal one (destination
/// first), none otherwise.
pub open spec fn sides_spec(f: NormalizedFlow, c: ClassificationResult) -> Seq<Side> {
    let inbound = Side { addr: f.destination_addr, direction: TrafficDirection::Incoming, tenant: opt_view(c.destination_matched_tenant), hostgroup: opt_view(c.destination_matched_hostgroup) };
    let outbound = Side { addr: f.source_addr, direction: TrafficDirection::Outgoing, tenant: opt_view(c.source_matched_tenant), hostgroup: opt_view(c.source_matched_hostgroup) };
    match c.direction {
        Direction::Incoming => seq![inbound],
        Direction::Outgoing => seq![outbound],
        Direction::Internal => seq![inbound, outbound],
        _ => Seq::empty(),
    }
}

/// A flow is counted against its local ends only, each in its own
/// direction: the destination, as incoming traffic under the
/// destination's tenant and hostgroup, when the destination is local;
/// the source, as outgoing traffic under the source's, when the source
/// is local; both for internal traffic; neither when no end is local or
/// the direction is unknown.
pub proof fn law_flows_count_against_their_local_ends(f: NormalizedFlow, c: ClassificationResult)
    ensures
        ({
            let sides = sides_spec(f, c);
            &&& sides.len() == match c.direction {
                Direction::Incoming | Direction::Outgoing => 1int,
                Direction::Internal => 2int,
                _ => 0int,
            }
            &&& forall|i: int| 0 <= i < sides.len() && (#[trigger] sides[i]).direction == TrafficDirection::Incoming ==> {
                &&& sides[i].addr == f.destination_addr
                &&& sides[i].tenant == opt_view(c.destination_matched_tenant)
                &&& sides[i].hostgroup == opt_view(c.destination_matched_hostgroup)
                &&& (c.direction == Direction::Incoming || c.direction == Direction::Internal)
            }
            &&& forall|i: int| 0 <= i < sides.len() && (#[trigger] sides[i]).direction == TrafficDirection::Outgoing ==> {
                &&& sides[i].addr == f.source_addr
                &&& sides[i].tenant == opt_view(c.source_matched_tenant)
                &&& sides[i].hostgroup == opt_view(c.source_matched_hostgroup)
                &&& (c.direction == Direction::Outgoing || c.direction == Direction::Internal)
            }
            &&& forall|i: int, j: int| 0 <= i < j < sides.len() ==> (#[trigger] sides[i]).direction != (#[trigger] sides[j]).direction
        }),
{
}

/// The key of scope `(scope_type, scope_id)` for a side.
pub open spec fn side_key(s: Side, scope_type: ScopeType, scope_id: ScopeIdView) -> ScopeKeyView {
    ScopeKeyView {
        tenant: match s.tenant {
            Some(t) => t,
            None => UNATTRIBUTED_TENANT@,
        },
        scope_type,
        scope_id,
        direction: s.direction,
        address_family: if s.addr is V4 { AddressFamily::Ipv4 } else { AddressFamily::Ipv6 },
    }
}

/// The host key of a side.
pub open spec fn host_key(s: Side) -> Seq<ScopeKeyView> {
    seq![side_key(s, ScopeType::Host, ScopeIdView::Host(s.addr))]
}

/// The prefix key of a side, when its address matched a local prefix.
pub open spec fn prefix_key(s: Side, r: RegistryView) -> Seq<ScopeKeyView> {
    match local_match(r, s.addr) {
        Some((_, len)) => seq![side_key(s, ScopeType::Prefix, ScopeIdView::Network(mask_spec(s.addr, len), len))],
        None => Seq::empty(),
    }
}

/// The /24 key of an IPv4 side.
pub open spec fn slash24_key(s: Side) -> Seq<ScopeKeyView> {
    if s.addr is V4 {
        seq![side_key(s, ScopeType::Slash24, ScopeIdView::Network(mask_spec(s.addr, 24), 24))]
    } else {
        Seq::empty()
    }
}

/// The hostgroup key of a side whose prefix declared a hostgroup.
pub open spec fn hostgroup_key(s: Side) -> Seq<ScopeKeyView> {
    match s.hostgroup {
        Some(name) => seq![side_key(s, ScopeType::HostgroupTotal, ScopeIdView::Hostgroup(name))],
        None => Seq::empty(),
    }
}

/// `m1` is `m0` after one flow was counted against key `k` at `now`:
/// with no capacity nothing changes; otherwise `k` holds the flow
/// accumulated onto its previous value (or an empty one), stamped `now`,
/// and every other key that remains kept its value. A new key in a full
/// map displaced at most one key, one with the oldest stamp.
pub open spec fn counted_into(m0: BoundedView<ScopeKeyView, Accumulator>, m1: BoundedView<ScopeKeyView, Accumulator>, k: ScopeKeyView, now: u128, f: NormalizedFlow) -> bool {
    &&& m1.config == m0.config
    &&& m0.config.max_entries == 0 ==> m1 == m0
    &&& m0.config.max_entries > 0 ==> {
        &&& m1.entries.dom().contains(k)
        &&& m1.entries[k] == (accumulated(if m0.entries.dom().contains(k) { m0.entries[k].0 } else { fresh_accumulator() }, f), now)
        &&& forall|k2: ScopeKeyView| k2 != k && #[trigger] m1.entries.dom().contains(k2) ==> m0.entries.dom().contains(k2) && m1.entries[k2] == m0.entries[k2]
        &&& forall|k2: ScopeKeyView| k2 != k && #[trigger] m0.entries.dom().contains(k2) && !m1.entries.dom().contains(k2) ==>
            !m0.entries.dom().contains(k) && forall|k3: ScopeKeyView| #[trigger] m0.entries.dom().contains(k3) ==> m0.entries[k2].1 <= m0.entries[k3].1
    }
}

/// Counting `k` into `m` evicts another key: the map is full and `k` is
/// not in it yet.
pub open spec fn evicts(m: BoundedView<ScopeKeyView, Accumulator>, k: ScopeKeyView) -> bool {
    m.config.max_entries > 0 && !m.entries.dom().contains(k) && m.entries.len() >= m.config.max_entries
}

/// Counting into `m` is refused: the map has no capacity.
pub open spec fn refuses(m: BoundedView<ScopeKeyView, Accumulator>) -> bool {
    m.config.max_entries == 0
}

/// How many of the first `n` steps of a chain evicted a key.
pub open spec fn evictions_along(st: Seq<BoundedView<ScopeKeyView, Accumulator>>, ks: Seq<ScopeKeyView>, n: int) -> nat
    decreases n,
{
    if n <= 0 {
        0
    } else {
        evictions_along(st, ks, n - 1) + if evicts(st[n - 1], ks[n - 1]) { 1nat } else { 0nat }
    }
}

/// How many of the first `n` steps of a chain were refused.
pub open spec fn refusals_along(st: Seq<BoundedView<ScopeKeyView, Accumulator>>, n: int) -> nat
    decreases n,
{
    if n <= 0 {
        0
    } else {
        refusals_along(st, n - 1) + if refuses(st[n - 1]) { 1nat } else { 0nat }
    }
}

/// `st` is a chain of states from `m0` to `m1`, each step counting the
/// flow against one key of `ks`.
pub open spec fn count_chain(st: Seq<BoundedView<ScopeKeyView, Accumulator>>, m0: BoundedView<ScopeKeyView, Accumulator>, m1: BoundedView<ScopeKeyView, Accumulator>, ks: Seq<ScopeKeyView>, now: u128, f: NormalizedFlow) -> bool {
    &&& st.len() == ks.len() + 1
    &&& st[0] == m0
    &&& st[ks.len() as int] == m1
    &&& forall|i: int| 0 <= i < ks.len() ==> #[trigger] counted_into(st[i], st[i + 1], ks[i], now, f)
}

/// `m1` is `m0` after the flow was counted against each of `ks` in turn,
/// `ev` of the steps evicting a key and `rej` of them refused.
pub open spec fn counted_all(m0: BoundedView<ScopeKeyView, Accumulator>, m1: BoundedView<ScopeKeyView, Accumulator>, ks: Seq<ScopeKeyView>, now: u128, f: NormalizedFlow, ev: nat, rej: nat) -> bool {
    exists|st: Seq<BoundedView<ScopeKeyView, Accumulator>>| {
        &&& #[trigger] count_chain(st, m0, m1, ks, now, f)
        &&& ev == evictions_along(st, ks, ks.len() as int)
        &&& rej == refusals_along(st, ks.len() as int)
    }
}

/// The keys of scope type `t` that one side is counted against.
pub open spec fn side_keys(s: Side, t: ScopeType, r: RegistryView) -> Seq<ScopeKeyView> {
    match t {
        ScopeType::Host => host_key(s),
        ScopeType::Prefix => prefix_key(s, r),
        ScopeType::Slash24 => slash24_key(s),
        ScopeType::HostgroupTotal => hostgroup_key(s),
    }
}

/// The keys of scope type `t` of each side, concatenated in side order.
pub open spec fn keys_of_sides(sides: Seq<Side>, t: ScopeType, r: RegistryView) -> Seq<ScopeKeyView>
    decreases sides.len(),
{
    if sides.len() == 0 {
        Seq::empty()
    } else {
        keys_of_sides(sides.drop_last(), t, r) + side_keys(sides.last(), t, r)
    }
}

proof fn lemma_keys_one(a: Side, t: ScopeType, r: RegistryView)
    ensures
        keys_of_sides(seq![a], t, r) == side_keys(a, t, r),
{
    assert(seq![a].drop_last() =~= Seq::<Side>::empty());
    assert(seq![a].last() == a);
    assert(keys_of_sides(Seq::<Side>::empty(), t, r) == Seq::<ScopeKeyView>::empty());
    assert(Seq::<ScopeKeyView>::empty() + side_keys(a, t, r) =~= side_keys(a, t, r));
}

proof fn lemma_keys_two(a: Side, b: Side, t: ScopeType, r: RegistryView)
    ensures
        keys_of_sides(seq![a, b], t, r) == side_keys(a, t, r) + side_keys(b, t, r),
{
    assert(seq![a, b].drop_last() =~= seq![a]);
    lemma_keys_one(a, t, r);
}

/// The detector's own direction-aware, bounded, per-scope counters.
pub struct DetectionWindows {
    config: WindowConfig,
    window_start: u128,
    hosts: BoundedMap<ScopeKey, Accumulator>,
    networks: BoundedMap<ScopeKey, Accumulator>,
    slash24: BoundedMap<ScopeKey, Accumulator>,
    hostgroups: BoundedMap<ScopeKey, Accumulator>,
    stats: WindowStats,
}

/// A [`DetectionWindows`] as values.
pub struct WindowsView {
    pub config: WindowConfig,
    pub window_start: u128,
    pub hosts: BoundedView<ScopeKeyView, Accumulator>,
    pub networks: BoundedView<ScopeKeyView, Accumulator>,
    pub slash24: BoundedView<ScopeKeyView, Accumulator>,
    pub hostgroups: BoundedView<ScopeKeyView, Accumulator>,
    pub stats: WindowStats,
}

impl View for DetectionWindows {
    type V = WindowsView;

    closed spec fn view(&self) -> WindowsView {
        WindowsView {
            config: self.config,
            window_start: self.window_start,
            hosts: self.hosts@,
            networks: self.networks@,
            slash24: self.slash24@,
            hostgroups: self.hostgroups@,
            stats: self.stats,
        }
    }
}

/// The configuration of one of the maps: its capacity, and the window as
/// its inactivity ttl (entries are cleared every tick anyway).
pub open spec fn map_config_spec(max_entries: usize, window: u128) -> BoundedMapConfig {
    BoundedMapConfig { max_entries, inactivity_ttl: window }
}

fn map_config(max_entries: usize, window: u128) -> (r: BoundedMapConfig)
    ensures
        r == map_config_spec(max_entries, window),
{
    BoundedMapConfig { max_entries, inactivity_ttl: window }
}

fn add_flow(a: Accumulator, flow: &NormalizedFlow) -> (r: Accumulator)
    ensures
        r == accumulated(a, *flow),
{
    let mut a = a;
    a.add(flow);
    a
}

/// Counts one flow against `key` in `map`.
fn accumulate(map: &mut BoundedMap<ScopeKey, Accumulator>, key: ScopeKey, flow: &NormalizedFlow, now: u128, stats: &mut WindowStats)
    ensures
        counted_into(old(map)@, final(map)@, key@, now, *flow),
        counting_stats(*old(stats), *final(stats), if evicts(old(map)@, key@) { 1nat } else { 0nat }, if refuses(old(map)@) { 1nat } else { 0nat }),
{
    let ghost kv = key@;
    let fresh = || -> (r: Accumulator) ensures r == fresh_accumulator() { Accumulator::new() };
    let add = |a: Accumulator| -> (r: Accumulator) ensures r == accumulated(a, *flow) { add_flow(a, flow) };
    let outcome = map.upsert(key, now, fresh, add);
    match outcome {
        UpsertOutcome::InsertedByEviction => {
            stats.evicted = if stats.evicted == u64::MAX { u64::MAX } else { stats.evicted + 1 };
        },
        UpsertOutcome::Rejected => {
            stats.rejected = if stats.rejected == u64::MAX { u64::MAX } else { stats.rejected + 1 };
        },
        _ => {},
    }
    proof {
        let m0 = old(map)@;
        let m1 = map@;
        if m0.config.max_entries > 0 {
            if m0.entries.dom().contains(kv) {
                assert(m1.entries == m0.entries.insert(kv, m1.entries[kv]));
            } else {
                let d = choose|d: Accumulator| fresh_accumulator() == d && #[trigger] accumulated(d, *flow) == m1.entries[kv].0;
            }
            assert forall|k2: ScopeKeyView| k2 != kv && #[trigger] m1.entries.dom().contains(k2) implies m0.entries.dom().contains(k2) && m1.entries[k2] == m0.entries[k2] by {
                if !m0.entries.dom().contains(kv) && m0.entries.len() >= m0.config.max_entries {
                    let victim = choose|victim: ScopeKeyView| #[trigger] m0.entries.dom().contains(victim)
                        && (forall|k: ScopeKeyView| #[trigger] m0.entries.dom().contains(k) ==> m0.entries[victim].1 <= m0.entries[k].1)
                        && m1.entries == m0.entries.remove(victim).insert(kv, m1.entries[kv]);
                }
            }
            assert forall|k2: ScopeKeyView| k2 != kv && #[trigger] m0.entries.dom().contains(k2) && !m1.entries.dom().contains(k2) implies
                !m0.entries.dom().contains(kv) && forall|k3: ScopeKeyView| #[trigger] m0.entries.dom().contains(k3) ==> m0.entries[k2].1 <= m0.entries[k3].1 by {
                if !m0.entries.dom().contains(kv) && m0.entries.len() >= m0.config.max_entries {
                    let victim = choose|victim: ScopeKeyView| #[trigger] m0.entries.dom().contains(victim)
                        && (forall|k: ScopeKeyView| #[trigger] m0.entries.dom().contains(k) ==> m0.entries[victim].1 <= m0.entries[k].1)
                        && m1.entries == m0.entries.remove(victim).insert(kv, m1.entries[kv]);
                    assert(k2 == victim);
                }
            }
        }
    }
}

proof fn lemma_along_prefix(st: Seq<BoundedView<ScopeKeyView, Accumulator>>, ks: Seq<ScopeKeyView>, s1: Seq<BoundedView<ScopeKeyView, Accumulator>>, ks1: Seq<ScopeKeyView>, n: int)
    requires
        0 <= n <= ks1.len(),
        n < s1.len(),
        n < st.len(),
        n <= ks.len(),
        forall|i: int| 0 <= i < n ==> st[i] == s1[i] && ks[i] == ks1[i],
    ensures
        evictions_along(st, ks, n) == evictions_along(s1, ks1, n),
        refusals_along(st, n) == refusals_along(s1, n),
    decreases n,
{
    if n > 0 {
        lemma_along_prefix(st, ks, s1, ks1, n - 1);
    }
}

proof fn lemma_along_suffix(st: Seq<BoundedView<ScopeKeyView, Accumulator>>, ks: Seq<ScopeKeyView>, s2: Seq<BoundedView<ScopeKeyView, Accumulator>>, ks2: Seq<ScopeKeyView>, off: int, j: int)
    requires
        0 <= off,
        0 <= j <= ks2.len(),
        off + j <= ks.len(),
        forall|i: int| 0 <= i < j ==> st[off + i] == s2[i] && ks[off + i] == ks2[i],
    ensures
        evictions_along(st, ks, off + j) == evictions_along(st, ks, off) + evictions_along(s2, ks2, j),
        refusals_along(st, off + j) == refusals_along(st, off) + refusals_along(s2, j),
    decreases j,
{
    if j > 0 {
        lemma_along_suffix(st, ks, s2, ks2, off, j - 1);
        assert(st[off + (j - 1)] == s2[j - 1] && ks[off + (j - 1)] == ks2[j - 1]);
    }
}

proof fn lemma_counted_concat(m0: BoundedView<ScopeKeyView, Accumulator>, m1: BoundedView<ScopeKeyView, Accumulator>, m2: BoundedView<ScopeKeyView, Accumulator>, ks1: Seq<ScopeKeyView>, ks2: Seq<ScopeKeyView>, now: u128, f: NormalizedFlow, e1: nat, r1: nat, e2: nat, r2: nat)
    requires
        counted_all(m0, m1, ks1, now, f, e1, r1),
        counted_all(m1, m2, ks2, now, f, e2, r2),
    ensures
        counted_all(m0, m2, ks1 + ks2, now, f, e1 + e2, r1 + r2),
{
    let s1 = choose|st: Seq<BoundedView<ScopeKeyView, Accumulator>>| {
        &&& #[trigger] count_chain(st, m0, m1, ks1, now, f)
        &&& e1 == evictions_along(st, ks1, ks1.len() as int)
        &&& r1 == refusals_along(st, ks1.len() as int)
    };
    let s2 = choose|st: Seq<BoundedView<ScopeKeyView, Accumulator>>| {
        &&& #[trigger] count_chain(st, m1, m2, ks2, now, f)
        &&& e2 == evictions_along(st, ks2, ks2.len() as int)
        &&& r2 == refusals_along(st, ks2.len() as int)
    };
    let st = s1 + s2.drop_first();
    let ks = ks1 + ks2;
    assert(st.len() == ks.len() + 1);
    assert(st[0] == m0);
    assert(st[ks.len() as int] == m2);
    assert forall|i: int| 0 <= i < ks.len() implies #[trigger] counted_into(st[i], st[i + 1], ks[i], now, f) by {
        if i < ks1.len() {
            assert(st[i] == s1[i]);
            assert(st[i + 1] == s1[i + 1]);
            assert(ks[i] == ks1[i]);
        } else {
            let j = i - ks1.len();
            assert(st[i] == s2[j]);
            assert(st[i + 1] == s2[j + 1]);
            assert(ks[i] == ks2[j]);
        }
    }
    assert(count_chain(st, m0, m2, ks, now, f));
    let n1 = ks1.len() as int;
    assert forall|i: int| 0 <= i < n1 implies st[i] == s1[i] && ks[i] == ks1[i] by {}
    lemma_along_prefix(st, ks, s1, ks1, n1);
    assert forall|i: int| 0 <= i < ks2.len() implies st[n1 + i] == s2[i] && ks[n1 + i] == ks2[i] by {
        if i == 0 {
            assert(st[n1] == s1[n1]);
        }
    }
    lemma_along_suffix(st, ks, s2, ks2, n1, ks2.len() as int);
}

proof fn lemma_counted_one(m0: BoundedView<ScopeKeyView, Accumulator>, m1: BoundedView<ScopeKeyView, Accumulator>, k: ScopeKeyView, now: u128, f: NormalizedFlow)
    requires
        counted_into(m0, m1, k, now, f),
    ensures
        counted_all(m0, m1, seq![k], now, f, if evicts(m0, k) { 1nat } else { 0nat }, if refuses(m0) { 1nat } else { 0nat }),
{
    let st = seq![m0, m1];
    let ks = seq![k];
    assert(st[0] == m0 && st[1] == m1);
    assert forall|i: int| 0 <= i < 1 implies #[trigger] counted_into(st[i], st[i + 1], ks[i], now, f) by {
        assert(i == 0);
    }
    assert(count_chain(st, m0, m1, ks, now, f));
    assert(evictions_along(st, ks, 0) == 0 && refusals_along(st, 0) == 0);
    assert(evictions_along(st, ks, 1) == if evicts(m0, k) { 1nat } else { 0nat });
    assert(refusals_along(st, 1) == if refuses(m0) { 1nat } else { 0nat });
}

proof fn lemma_counted_none(m0: BoundedView<ScopeKeyView, Accumulator>, now: u128, f: NormalizedFlow)
    ensures
        counted_all(m0, m0, Seq::<ScopeKeyView>::empty(), now, f, 0, 0),
{
    let st = seq![m0];
    let ks = Seq::<ScopeKeyView>::empty();
    assert(st[0] == m0);
    assert(count_chain(st, m0, m0, ks, now, f));
    assert(evictions_along(st, ks, 0) == 0 && refusals_along(st, 0) == 0);
}

/// `a + x + y` stopping at `u64::MAX` is `a + x` stopping there, plus
/// `y` stopping there.
proof fn lemma_sat_add_nat_twice(a: u64, x: nat, y: nat)
    ensures
        sat_add_nat(sat_add_nat(a, x), y) == sat_add_nat(a, x + y),
{
}

/// The snapshot of one scope's window: rates over the time that actually
/// elapsed, SYN, fragmented and dropped traffic in packets only (there
/// is no byte count for them), and the accumulated completeness,
/// sampling and exporter count.
pub open spec fn snapshot_of(s: DetectionSnapshot, k: ScopeKeyView, a: Accumulator, window: u128, elapsed: u128, now: u128, wall: i128) -> bool {
    let c = a.counters;
    &&& s.key@ == k
    &&& s.window == window
    &&& s.observed_at == now
    &&& s.observed_wall == wall
    &&& s.rates == (MetricRates {
        bps: bits_per_second_spec(c.bytes, elapsed),
        pps: per_second_spec(c.packets, elapsed),
        fps: per_second_spec(c.flows, elapsed),
        tcp_bps: bits_per_second_spec(c.tcp_bytes, elapsed),
        tcp_pps: per_second_spec(c.tcp_packets, elapsed),
        udp_bps: bits_per_second_spec(c.udp_bytes, elapsed),
        udp_pps: per_second_spec(c.udp_packets, elapsed),
        icmp_bps: bits_per_second_spec(c.icmp_bytes, elapsed),
        icmp_pps: per_second_spec(c.icmp_packets, elapsed),
        tcp_syn_bps: 0,
        tcp_syn_pps: per_second_spec(c.tcp_syn_packets, elapsed),
        fragmented_bps: 0,
        fragmented_pps: per_second_spec(c.fragmented_packets, elapsed),
        dropped_bps: 0,
        dropped_pps: per_second_spec(c.dropped_packets, elapsed),
    })
    &&& s.completeness == a.completeness
    &&& s.sampling == a.sampling
    &&& s.flows_observed == c.flows
    &&& s.exporters_observed == ones(a.exporters.0, 64)
}

proof fn lemma_per_second_zero(elapsed: u128)
    ensures
        per_second_spec(0, elapsed) == 0,
        bits_per_second_spec(0, elapsed) == 0,
{
}

proof fn lemma_per_second_monotone(a: u64, b: u64, elapsed: u128)
    requires
        a <= b,
    ensures
        per_second_spec(a, elapsed) <= per_second_spec(b, elapsed),
        bits_per_second_spec(a, elapsed) <= bits_per_second_spec(b, elapsed),
{
    if elapsed > 0 {
        assert(a * 1_000_000_000 <= b * 1_000_000_000) by (nonlinear_arith)
            requires
                a <= b,
        ;
        let sa: int = if a * 1_000_000_000 > u128::MAX { u128::MAX as int } else { a * 1_000_000_000 };
        let sb: int = if b * 1_000_000_000 > u128::MAX { u128::MAX as int } else { b * 1_000_000_000 };
        vstd::arithmetic::div_mod::lemma_div_is_ordered(sa, sb, elapsed as int);
        let ba: u64 = if a * 8 > u64::MAX { u64::MAX } else { (a * 8) as u64 };
        let bb: u64 = if b * 8 > u64::MAX { u64::MAX } else { (b * 8) as u64 };
        assert(ba <= bb);
        assert(ba * 1_000_000_000 <= bb * 1_000_000_000) by (nonlinear_arith)
            requires
                ba <= bb,
        ;
        let ta: int = if ba * 1_000_000_000 > u128::MAX { u128::MAX as int } else { ba * 1_000_000_000 };
        let tb: int = if bb * 1_000_000_000 > u128::MAX { u128::MAX as int } else { bb * 1_000_000_000 };
        vstd::arithmetic::div_mod::lemma_div_is_ordered(ta, tb, elapsed as int);
    }
}

/// Every rate of a snapshot comes from the counter of its own quantity:
/// it is that counter per second over the time that elapsed. So a rate
/// whose counter is zero is zero (a window with no TCP traffic has no
/// TCP rate), a part never outruns its whole (TCP packets per second are
/// at most packets per second while TCP packets are at most packets,
/// and likewise for bytes and for UDP, ICMP, SYN, fragmented and
/// dropped packets), and the byte rates of SYN, fragmented and dropped
/// traffic, which nothing counts, are zero.
pub proof fn law_snapshot_rates_follow_their_own_counters(
    s: DetectionSnapshot,
    k: ScopeKeyView,
    a: Accumulator,
    window: u128,
    elapsed: u128,
    now: u128,
    wall: i128,
)
    requires
        snapshot_of(s, k, a, window, elapsed, now, wall),
    ensures
        ({
            let c = a.counters;
            let r = s.rates;
            &&& r.pps == per_second_spec(c.packets, elapsed) && r.fps == per_second_spec(c.flows, elapsed)
            &&& r.bps == bits_per_second_spec(c.bytes, elapsed)
            &&& r.tcp_pps == per_second_spec(c.tcp_packets, elapsed) && r.tcp_bps == bits_per_second_spec(c.tcp_bytes, elapsed)
            &&& r.udp_pps == per_second_spec(c.udp_packets, elapsed) && r.udp_bps == bits_per_second_spec(c.udp_bytes, elapsed)
            &&& r.icmp_pps == per_second_spec(c.icmp_packets, elapsed) && r.icmp_bps == bits_per_second_spec(c.icmp_bytes, elapsed)
            &&& r.tcp_syn_pps == per_second_spec(c.tcp_syn_packets, elapsed)
            &&& r.fragmented_pps == per_second_spec(c.fragmented_packets, elapsed)
            &&& r.dropped_pps == per_second_spec(c.dropped_packets, elapsed)
            &&& r.tcp_syn_bps == 0 && r.fragmented_bps == 0 && r.dropped_bps == 0
            &&& c.packets == 0 ==> r.pps == 0
            &&& c.bytes == 0 ==> r.bps == 0
            &&& c.tcp_packets == 0 ==> r.tcp_pps == 0
            &&& c.tcp_bytes == 0 ==> r.tcp_bps == 0
            &&& c.udp_packets == 0 ==> r.udp_pps == 0
            &&& c.udp_bytes == 0 ==> r.udp_bps == 0
            &&& c.icmp_packets == 0 ==> r.icmp_pps == 0
            &&& c.icmp_bytes == 0 ==> r.icmp_bps == 0
            &&& c.tcp_syn_packets == 0 ==> r.tcp_syn_pps == 0
            &&& c.fragmented_packets == 0 ==> r.fragmented_pps == 0
            &&& c.dropped_packets == 0 ==> r.dropped_pps == 0
            &&& c.tcp_packets <= c.packets ==> r.tcp_pps <= r.pps
            &&& c.udp_packets <= c.packets ==> r.udp_pps <= r.pps
            &&& c.icmp_packets <= c.packets ==> r.icmp_pps <= r.pps
            &&& c.tcp_syn_packets <= c.packets ==> r.tcp_syn_pps <= r.pps
            &&& c.fragmented_packets <= c.packets ==> r.fragmented_pps <= r.pps
            &&& c.dropped_packets <= c.packets ==> r.dropped_pps <= r.pps
            &&& c.tcp_bytes <= c.bytes ==> r.tcp_bps <= r.bps
            &&& c.udp_bytes <= c.bytes ==> r.udp_bps <= r.bps
            &&& c.icmp_bytes <= c.bytes ==> r.icmp_bps <= r.bps
        }),
{
    let c = a.counters;
    lemma_per_second_zero(elapsed);
    if c.tcp_packets <= c.packets { lemma_per_second_monotone(c.tcp_packets, c.packets, elapsed); }
    if c.udp_packets <= c.packets { lemma_per_second_monotone(c.udp_packets, c.packets, elapsed); }
    if c.icmp_packets <= c.packets { lemma_per_second_monotone(c.icmp_packets, c.packets, elapsed); }
    if c.tcp_syn_packets <= c.packets { lemma_per_second_monotone(c.tcp_syn_packets, c.packets, elapsed); }
    if c.fragmented_packets <= c.packets { lemma_per_second_monotone(c.fragmented_packets, c.packets, elapsed); }
    if c.dropped_packets <= c.packets { lemma_per_second_monotone(c.dropped_packets, c.packets, elapsed); }
    if c.tcp_bytes <= c.bytes { lemma_per_second_monotone(c.tcp_bytes, c.bytes, elapsed); }
    if c.udp_bytes <= c.bytes { lemma_per_second_monotone(c.udp_bytes, c.bytes, elapsed); }
    if c.icmp_bytes <= c.bytes { lemma_per_second_monotone(c.icmp_bytes, c.bytes, elapsed); }
}

fn snapshot(key: &ScopeKey, a: &Accumulator, window: u128, elapsed: u128, now: u128, wall: i128) -> (r: DetectionSnapshot)
    ensures
        snapshot_of(r, key@, *a, window, elapsed, now, wall),
{
    let c = a.counters;
    DetectionSnapshot {
        key: key.duplicate(),
        window,
        observed_at: now,
        observed_wall: wall,
        rates: MetricRates {
            bps: bits_per_second(c.bytes, elapsed),
            pps: per_second(c.packets, elapsed),
            fps: per_second(c.flows, elapsed),
            tcp_bps: bits_per_second(c.tcp_bytes, elapsed),
            tcp_pps: per_second(c.tcp_packets, elapsed),
            udp_bps: bits_per_second(c.udp_bytes, elapsed),
            udp_pps: per_second(c.udp_packets, elapsed),
            icmp_bps: bits_per_second(c.icmp_bytes, elapsed),
            icmp_pps: per_second(c.icmp_packets, elapsed),
            tcp_syn_bps: 0,
            tcp_syn_pps: per_second(c.tcp_syn_packets, elapsed),
            fragmented_bps: 0,
            fragmented_pps: per_second(c.fragmented_packets, elapsed),
            dropped_bps: 0,
            dropped_pps: per_second(c.dropped_packets, elapsed),
        },
        completeness: a.completeness,
        sampling: a.sampling,
        flows_observed: c.flows,
        exporters_observed: a.exporters.count(),
    }
}

/// The key views of a sequence of snapshots.
pub open spec fn snapshot_keys(s: Seq<DetectionSnapshot>) -> Seq<ScopeKeyView> {
    s.map_values(|x: DetectionSnapshot| x.key@)
}

/// Sorts snapshots with distinct keys into ascending key order.
fn sort_snapshots(v: Vec<DetectionSnapshot>) -> (r: Vec<DetectionSnapshot>)
    requires
        snapshot_keys(v@).no_duplicates(),
    ensures
        r@.len() == v@.len(),
        forall|x: DetectionSnapshot| #[trigger] r@.contains(x) <==> v@.contains(x),
        snapshot_keys(r@).no_duplicates(),
        keys_ascending(snapshot_keys(r@)),
{
    let ghost input = v@;
    let n = v.len();
    let mut rest = v;
    let mut out: Vec<DetectionSnapshot> = Vec::new();
    let mut i: usize = 0;
    while rest.len() > 0
        invariant
            i <= input.len(),
            input.len() == n,
            rest@ == input.subrange(i as int, input.len() as int),
            snapshot_keys(input).no_duplicates(),
            out@.len() == i,
            forall|x: DetectionSnapshot| #[trigger] out@.contains(x) <==> input.subrange(0, i as int).contains(x),
            snapshot_keys(out@).no_duplicates(),
            keys_ascending(snapshot_keys(out@)),
        decreases rest@.len(),
    {
        let x = rest.remove(0);
        let ghost xv = x.key@;
        let ghost ov = snapshot_keys(out@);
        let ghost old_out = out@;
        proof {
            assert(x == input[i as int]);
            assert(!ov.contains(xv)) by {
                if ov.contains(xv) {
                    let j = choose|j: int| 0 <= j < ov.len() && #[trigger] ov[j] == xv;
                    assert(out@.contains(out@[j]));
                    let m = choose|m: int| 0 <= m < i && #[trigger] input.subrange(0, i as int)[m] == out@[j];
                    assert(snapshot_keys(input)[m] == snapshot_keys(input)[i as int]);
                }
            }
        }
        let mut p: usize = 0;
        while p < out.len()
            invariant
                p <= out@.len(),
                ov == snapshot_keys(out@),
                xv == x.key@,
                forall|j: int| 0 <= j < p ==> !key_before(xv, #[trigger] ov[j]),
            ensures
                p <= out@.len(),
                forall|j: int| 0 <= j < p ==> !key_before(xv, #[trigger] ov[j]),
                p < out@.len() ==> key_before(xv, ov[p as int]),
            decreases out@.len() - p,
        {
            let o = x.key.compare(&out[p].key);
            proof {
                reveal(key_before);
                assert(ov[p as int] == out@[p as int].key@);
            }
            if o == KeyOrder::Before {
                break;
            }
            p = p + 1;
        }
        proof {
            lemma_sorted_insert(ov, p as int, xv);
            lemma_insert_contains(old_out, p as int, x);
        }
        out.insert(p, x);
        proof {
            assert(snapshot_keys(out@) =~= ov.insert(p as int, xv));
            assert(input.subrange(0, i + 1) =~= input.subrange(0, i as int).push(input[i as int]));
            assert forall|y: DetectionSnapshot| #[trigger] out@.contains(y) <==> input.subrange(0, i + 1).contains(y) by {
                assert(out@.contains(y) <==> (old_out.contains(y) || y == x));
                if input.subrange(0, i + 1).contains(y) && y != x {
                    let m = choose|m: int| 0 <= m < i + 1 && #[trigger] input.subrange(0, i + 1)[m] == y;
                    assert(input.subrange(0, i as int)[m] == y);
                }
                if input.subrange(0, i as int).contains(y) {
                    let m = choose|m: int| 0 <= m < i && #[trigger] input.subrange(0, i as int)[m] == y;
                    assert(input.subrange(0, i + 1)[m] == y);
                }
                assert(input.subrange(0, i + 1)[i as int] == x);
            }
            assert(rest@ =~= input.subrange(i + 1, input.len() as int));
        }
        i = i + 1;
    }
    proof {
        assert(input.subrange(0, input.len() as int) =~= input);
    }
    out
}

proof fn lemma_distinct_covers(s: Seq<ScopeKeyView>, d: Set<ScopeKeyView>)
    requires
        s.no_duplicates(),
        d.finite(),
        s.len() == d.len(),
        forall|i: int| 0 <= i < s.len() ==> d.contains(#[trigger] s[i]),
    ensures
        forall|k: ScopeKeyView| #[trigger] d.contains(k) ==> s.contains(k),
{
    broadcast use vstd::seq_lib::group_seq_properties;
    s.unique_seq_to_set();
    assert(s.to_set().subset_of(d)) by {
        assert forall|k: ScopeKeyView| #[trigger] s.to_set().contains(k) implies d.contains(k) by {
            let i = choose|i: int| 0 <= i < s.len() && s[i] == k;
        }
    }
    vstd::set_lib::lemma_len_subset(s.to_set(), d);
    vstd::set_lib::lemma_subset_equality(s.to_set(), d);
}

/// Appends one snapshot per entry of `map`, in the map's own order.
fn collect(map: &BoundedMap<ScopeKey, Accumulator>, out: &mut Vec<DetectionSnapshot>, window: u128, elapsed: u128, now: u128, wall: i128)
    ensures
        final(out)@.len() == old(out)@.len() + map@.entries.len(),
        final(out)@.subrange(0, old(out)@.len() as int) == old(out)@,
        forall|i: int| old(out)@.len() <= i < final(out)@.len() ==> map@.entries.dom().contains((#[trigger] final(out)@[i]).key@)
            && snapshot_of(final(out)@[i], final(out)@[i].key@, map@.entries[final(out)@[i].key@].0, window, elapsed, now, wall),
        forall|k: ScopeKeyView| #[trigger] map@.entries.dom().contains(k) ==> exists|i: int| old(out)@.len() <= i < final(out)@.len() && final(out)@[i].key@ == k,
        forall|i: int, j: int| old(out)@.len() <= i < j < final(out)@.len() ==> (#[trigger] final(out)@[i]).key@ != (#[trigger] final(out)@[j]).key@,
{
    let entries = map.iter();
    let ghost start = old(out)@.len();
    let ghost o0 = old(out)@;
    let mut i: usize = 0;
    while i < entries.len()
        invariant
            i <= entries@.len(),
            entries@.len() == map@.entries.len(),
            out@.len() == start + i,
            out@.subrange(0, start as int) == o0,
            forall|m: int| 0 <= m < entries@.len() ==> map@.entries.dom().contains((#[trigger] entries@[m]).0@)
                && *entries@[m].1 == map@.entries[entries@[m].0@].0,
            forall|m: int| 0 <= m < i ==> (#[trigger] out@[start + m]).key@ == entries@[m].0@
                && snapshot_of(out@[start + m], entries@[m].0@, map@.entries[entries@[m].0@].0, window, elapsed, now, wall),
        decreases entries@.len() - i,
    {
        let (k, a) = entries[i];
        let snap = snapshot(k, a, window, elapsed, now, wall);
        let ghost before = out@;
        out.push(snap);
        proof {
            assert(out@.subrange(0, start as int) =~= before.subrange(0, start as int));
            assert forall|m: int| 0 <= m < i + 1 implies (#[trigger] out@[start + m]).key@ == entries@[m].0@
                && snapshot_of(out@[start + m], entries@[m].0@, map@.entries[entries@[m].0@].0, window, elapsed, now, wall) by {
                if m < i {
                    assert(out@[start + m] == before[start + m]);
                }
            }
        }
        i = i + 1;
    }
    proof {
        let ks = Seq::new(entries@.len(), |m: int| entries@[m].0@);
        assert forall|a: int, b: int| 0 <= a < b < ks.len() implies ks[a] != ks[b] by {
            assert(entries@[a].0@ != entries@[b].0@);
        }
        assert(ks.no_duplicates());
        assert forall|m: int| 0 <= m < ks.len() implies map@.entries.dom().contains(#[trigger] ks[m]) by {
            assert(map@.entries.dom().contains(entries@[m].0@));
        }
        lemma_distinct_covers(ks, map@.entries.dom());
        assert forall|k: ScopeKeyView| #[trigger] map@.entries.dom().contains(k) implies exists|j: int| start <= j < out@.len() && out@[j].key@ == k by {
            assert(ks.contains(k));
            let m = choose|m: int| 0 <= m < ks.len() && ks[m] == k;
            assert(out@[start + m].key@ == k);
        }
        assert forall|a: int, b: int| start <= a < b < out@.len() implies (#[trigger] out@[a]).key@ != (#[trigger] out@[b]).key@ by {
            assert(out@[start + (a - start)].key@ == ks[a - start]);
            assert(out@[start + (b - start)].key@ == ks[b - start]);
        }
        assert forall|j: int| start <= j < out@.len() implies map@.entries.dom().contains((#[trigger] out@[j]).key@)
            && snapshot_of(out@[j], out@[j].key@, map@.entries[out@[j].key@].0, window, elapsed, now, wall) by {
            assert(out@[start + (j - start)].key@ == entries@[j - start].0@);
        }
    }
}

/// Every key in a map has the map's scope type.
pub open spec fn all_of_type(m: BoundedView<ScopeKeyView, Accumulator>, t: ScopeType) -> bool {
    forall|k: ScopeKeyView| #[trigger] m.entries.dom().contains(k) ==> k.scope_type == t
}

proof fn lemma_counted_keeps_type(m0: BoundedView<ScopeKeyView, Accumulator>, m1: BoundedView<ScopeKeyView, Accumulator>, ks: Seq<ScopeKeyView>, now: u128, f: NormalizedFlow, ev: nat, rej: nat, t: ScopeType)
    requires
        counted_all(m0, m1, ks, now, f, ev, rej),
        all_of_type(m0, t),
        forall|i: int| 0 <= i < ks.len() ==> (#[trigger] ks[i]).scope_type == t,
    ensures
        all_of_type(m1, t),
        m1.config == m0.config,
{
    let st = choose|st: Seq<BoundedView<ScopeKeyView, Accumulator>>| {
        &&& #[trigger] count_chain(st, m0, m1, ks, now, f)
        &&& ev == evictions_along(st, ks, ks.len() as int)
        &&& rej == refusals_along(st, ks.len() as int)
    };
    lemma_chain_keeps_type(st, ks, now, f, t, ks.len() as int);
}

proof fn lemma_chain_keeps_type(st: Seq<BoundedView<ScopeKeyView, Accumulator>>, ks: Seq<ScopeKeyView>, now: u128, f: NormalizedFlow, t: ScopeType, j: int)
    requires
        0 <= j <= ks.len(),
        st.len() == ks.len() + 1,
        all_of_type(st[0], t),
        forall|i: int| 0 <= i < ks.len() ==> #[trigger] counted_into(st[i], st[i + 1], ks[i], now, f),
        forall|i: int| 0 <= i < ks.len() ==> (#[trigger] ks[i]).scope_type == t,
    ensures
        all_of_type(st[j], t),
        st[j].config == st[0].config,
    decreases j,
{
    if j > 0 {
        lemma_chain_keeps_type(st, ks, now, f, t, j - 1);
        let p = j - 1;
        assert(counted_into(st[p], st[p + 1], ks[p], now, f));
        assert(ks[p].scope_type == t);
        assert forall|k: ScopeKeyView| #[trigger] st[j].entries.dom().contains(k) implies k.scope_type == t by {
            assert(st[p + 1] == st[j]);
            if k != ks[p] && st[p].config.max_entries > 0 {
                assert(st[p].entries.dom().contains(k));
            }
        }
    }
}

/// The side with the given address, direction, tenant and hostgroup.
pub open spec fn side_of(addr: IpAddress, direction: TrafficDirection, tenant: Option<String>, hostgroup: Option<String>) -> Side {
    Side { addr, direction, tenant: opt_view(tenant), hostgroup: opt_view(hostgroup) }
}

/// `w1` is `w0` with one flow counted against the host keys `hk`, the
/// network keys `nk`, the /24 keys `sk` and the hostgroup keys `gk`,
/// map by map; the eviction and rejection counters each grow by one
/// (stopping at `u64::MAX`) for every count that evicted a key or was
/// refused.
pub open spec fn counted_keys(w0: WindowsView, w1: WindowsView, hk: Seq<ScopeKeyView>, nk: Seq<ScopeKeyView>, sk: Seq<ScopeKeyView>, gk: Seq<ScopeKeyView>, now: u128, f: NormalizedFlow) -> bool {
    exists|eh: nat, rh: nat, en: nat, rn: nat, es: nat, rs: nat, eg: nat, rg: nat|
        #![trigger counted_all(w0.hosts, w1.hosts, hk, now, f, eh, rh), counted_all(w0.networks, w1.networks, nk, now, f, en, rn),
            counted_all(w0.slash24, w1.slash24, sk, now, f, es, rs), counted_all(w0.hostgroups, w1.hostgroups, gk, now, f, eg, rg)]
        {
        &&& counted_all(w0.hosts, w1.hosts, hk, now, f, eh, rh)
        &&& counted_all(w0.networks, w1.networks, nk, now, f, en, rn)
        &&& counted_all(w0.slash24, w1.slash24, sk, now, f, es, rs)
        &&& counted_all(w0.hostgroups, w1.hostgroups, gk, now, f, eg, rg)
        &&& w1.stats.evicted == sat_add_nat(w0.stats.evicted, eh + en + es + eg)
        &&& w1.stats.rejected == sat_add_nat(w0.stats.rejected, rh + rn + rs + rg)
    }
}

/// `w1` is `w0` with one flow counted against every scope of each of its
/// local sides, map by map, with evictions and rejections counted.
pub open spec fn ingested(w0: WindowsView, w1: WindowsView, r: RegistryView, f: NormalizedFlow, c: ClassificationResult, now: u128) -> bool {
    let sides = sides_spec(f, c);
    counted_keys(
        w0,
        w1,
        keys_of_sides(sides, ScopeType::Host, r),
        keys_of_sides(sides, ScopeType::Prefix, r),
        keys_of_sides(sides, ScopeType::Slash24, r),
        keys_of_sides(sides, ScopeType::HostgroupTotal, r),
        now,
        f,
    )
}

/// The stats after counting into the maps: the flow, snapshot and skew
/// counters are untouched, and evictions and rejections grow by `ev`
/// and `rej`, stopping at `u64::MAX`.
pub open spec fn counting_stats(s0: WindowStats, s1: WindowStats, ev: nat, rej: nat) -> bool {
    &&& s1.flows_ingested == s0.flows_ingested
    &&& s1.flows_unscoped == s0.flows_unscoped
    &&& s1.snapshots_emitted == s0.snapshots_emitted
    &&& s1.skewed_ticks == s0.skewed_ticks
    &&& s1.evicted == sat_add_nat(s0.evicted, ev)
    &&& s1.rejected == sat_add_nat(s0.rejected, rej)
}

/// `a` and `b` hold the same maps and the same eviction and rejection
/// counts.
pub open spec fn same_counts(a: WindowsView, b: WindowsView) -> bool {
    &&& a.hosts == b.hosts
    &&& a.networks == b.networks
    &&& a.slash24 == b.slash24
    &&& a.hostgroups == b.hostgroups
    &&& a.stats.evicted == b.stats.evicted
    &&& a.stats.rejected == b.stats.rejected
}

proof fn lemma_counted_keys_alike(
    w0: WindowsView,
    w1: WindowsView,
    a0: WindowsView,
    a1: WindowsView,
    hk: Seq<ScopeKeyView>, nk: Seq<ScopeKeyView>, sk: Seq<ScopeKeyView>, gk: Seq<ScopeKeyView>,
    now: u128,
    f: NormalizedFlow,
)
    requires
        counted_keys(w0, w1, hk, nk, sk, gk, now, f),
        same_counts(w0, a0),
        same_counts(w1, a1),
    ensures
        counted_keys(a0, a1, hk, nk, sk, gk, now, f),
{
    let (eh, rh, en, rn, es, rs, eg, rg) = choose|eh: nat, rh: nat, en: nat, rn: nat, es: nat, rs: nat, eg: nat, rg: nat| {
        &&& counted_all(w0.hosts, w1.hosts, hk, now, f, eh, rh)
        &&& counted_all(w0.networks, w1.networks, nk, now, f, en, rn)
        &&& counted_all(w0.slash24, w1.slash24, sk, now, f, es, rs)
        &&& counted_all(w0.hostgroups, w1.hostgroups, gk, now, f, eg, rg)
        &&& w1.stats.evicted == sat_add_nat(w0.stats.evicted, eh + en + es + eg)
        &&& w1.stats.rejected == sat_add_nat(w0.stats.rejected, rh + rn + rs + rg)
    };
    assert(counted_all(a0.hosts, a1.hosts, hk, now, f, eh, rh));
    assert(counted_all(a0.networks, a1.networks, nk, now, f, en, rn));
    assert(counted_all(a0.slash24, a1.slash24, sk, now, f, es, rs));
    assert(counted_all(a0.hostgroups, a1.hostgroups, gk, now, f, eg, rg));
}

proof fn lemma_counted_keys_concat(
    w0: WindowsView,
    w1: WindowsView,
    w2: WindowsView,
    h1: Seq<ScopeKeyView>, n1: Seq<ScopeKeyView>, s1: Seq<ScopeKeyView>, g1: Seq<ScopeKeyView>,
    h2: Seq<ScopeKeyView>, n2: Seq<ScopeKeyView>, s2: Seq<ScopeKeyView>, g2: Seq<ScopeKeyView>,
    now: u128,
    f: NormalizedFlow,
)
    requires
        counted_keys(w0, w1, h1, n1, s1, g1, now, f),
        counted_keys(w1, w2, h2, n2, s2, g2, now, f),
    ensures
        counted_keys(w0, w2, h1 + h2, n1 + n2, s1 + s2, g1 + g2, now, f),
{
    let (eh, rh, en, rn, es, rs, eg, rg) = choose|eh: nat, rh: nat, en: nat, rn: nat, es: nat, rs: nat, eg: nat, rg: nat| {
        &&& counted_all(w0.hosts, w1.hosts, h1, now, f, eh, rh)
        &&& counted_all(w0.networks, w1.networks, n1, now, f, en, rn)
        &&& counted_all(w0.slash24, w1.slash24, s1, now, f, es, rs)
        &&& counted_all(w0.hostgroups, w1.hostgroups, g1, now, f, eg, rg)
        &&& w1.stats.evicted == sat_add_nat(w0.stats.evicted, eh + en + es + eg)
        &&& w1.stats.rejected == sat_add_nat(w0.stats.rejected, rh + rn + rs + rg)
    };
    let (fh, qh, fn_, qn, fs, qs, fg, qg) = choose|eh: nat, rh: nat, en: nat, rn: nat, es: nat, rs: nat, eg: nat, rg: nat| {
        &&& counted_all(w1.hosts, w2.hosts, h2, now, f, eh, rh)
        &&& counted_all(w1.networks, w2.networks, n2, now, f, en, rn)
        &&& counted_all(w1.slash24, w2.slash24, s2, now, f, es, rs)
        &&& counted_all(w1.hostgroups, w2.hostgroups, g2, now, f, eg, rg)
        &&& w2.stats.evicted == sat_add_nat(w1.stats.evicted, eh + en + es + eg)
        &&& w2.stats.rejected == sat_add_nat(w1.stats.rejected, rh + rn + rs + rg)
    };
    lemma_counted_concat(w0.hosts, w1.hosts, w2.hosts, h1, h2, now, f, eh, rh, fh, qh);
    lemma_counted_concat(w0.networks, w1.networks, w2.networks, n1, n2, now, f, en, rn, fn_, qn);
    lemma_counted_concat(w0.slash24, w1.slash24, w2.slash24, s1, s2, now, f, es, rs, fs, qs);
    lemma_counted_concat(w0.hostgroups, w1.hostgroups, w2.hostgroups, g1, g2, now, f, eg, rg, fg, qg);
    lemma_sat_add_nat_twice(w0.stats.evicted, eh + en + es + eg, fh + fn_ + fs + fg);
    lemma_sat_add_nat_twice(w0.stats.rejected, rh + rn + rs + rg, qh + qn + qs + qg);
    assert(eh + en + es + eg + (fh + fn_ + fs + fg) == (eh + fh) + (en + fn_) + (es + fs) + (eg + fg));
    assert(rh + rn + rs + rg + (qh + qn + qs + qg) == (rh + qh) + (rn + qn) + (rs + qs) + (rg + qg));
}

/// The map of `w` that holds keys of `k`'s scope type.
pub open spec fn map_for(w: WindowsView, k: ScopeKeyView) -> BoundedView<ScopeKeyView, Accumulator> {
    match k.scope_type {
        ScopeType::Host => w.hosts,
        ScopeType::Prefix => w.networks,
        ScopeType::Slash24 => w.slash24,
        ScopeType::HostgroupTotal => w.hostgroups,
    }
}

/// How many scopes `w` is accumulating, across every scope type.
pub open spec fn scope_total(w: WindowsView) -> nat {
    w.hosts.entries.len() + w.networks.entries.len() + w.slash24.entries.len() + w.hostgroups.entries.len()
}

/// `a + n`, stopping at `u64::MAX`.
pub open spec fn sat_add_nat(a: u64, n: nat) -> u64 {
    if a + n > u64::MAX { u64::MAX } else { (a + n) as u64 }
}

/// What a due tick does: `r` holds one snapshot per accumulating scope
/// (rates over `elapsed`), in ascending key order; every map is emptied,
/// the next window starts at `now`, and the stats count the snapshots
/// and, when `elapsed` is skewed against the window, the tick.
pub open spec fn ticked(w0: WindowsView, w1: WindowsView, r: Seq<DetectionSnapshot>, now: u128, wall: i128) -> bool {
    let elapsed = elapsed_since(now, w0.window_start);
    &&& w1.config == w0.config
    &&& w1.window_start == now
    &&& w1.hosts.entries.len() == 0 && w1.networks.entries.len() == 0
    &&& w1.slash24.entries.len() == 0 && w1.hostgroups.entries.len() == 0
    &&& w1.stats == (WindowStats {
        snapshots_emitted: sat_add_nat(w0.stats.snapshots_emitted, r.len()),
        skewed_ticks: if skewed_spec(elapsed, w0.config.window) { sat_add(w0.stats.skewed_ticks, 1) } else { w0.stats.skewed_ticks },
        ..w0.stats
    })
    &&& r.len() == scope_total(w0)
    &&& forall|i: int| 0 <= i < r.len() ==> map_for(w0, (#[trigger] r[i]).key@).entries.dom().contains(r[i].key@)
        && snapshot_of(r[i], r[i].key@, map_for(w0, r[i].key@).entries[r[i].key@].0, w0.config.window, elapsed, now, wall)
    &&& forall|k: ScopeKeyView| #[trigger] map_for(w0, k).entries.dom().contains(k) ==> exists|i: int| 0 <= i < r.len() && r[i].key@ == k
    &&& snapshot_keys(r).no_duplicates()
    &&& keys_ascending(snapshot_keys(r))
}

impl DetectionWindows {
    /// Every map holds only keys of its own scope type.
    pub closed spec fn wf(&self) -> bool {
        &&& all_of_type(self.hosts@, ScopeType::Host)
        &&& all_of_type(self.networks@, ScopeType::Prefix)
        &&& all_of_type(self.slash24@, ScopeType::Slash24)
        &&& all_of_type(self.hostgroups@, ScopeType::HostgroupTotal)
        &&& self.hosts@.config == map_config_spec(self.config.max_hosts, self.config.window)
        &&& self.networks@.config == map_config_spec(self.config.max_networks, self.config.window)
        &&& self.slash24@.config == map_config_spec(self.config.max_slash24, self.config.window)
        &&& self.hostgroups@.config == map_config_spec(self.config.max_hostgroups, self.config.window)
    }

    /// Empty windows, the first starting at `now`.
    pub fn new(config: WindowConfig, now: u128) -> (r: DetectionWindows)
        ensures
            r.wf(),
            r@.config == config,
            r@.window_start == now,
            r@.hosts.entries.dom().len() == 0,
            r@.networks.entries.dom().len() == 0,
            r@.slash24.entries.dom().len() == 0,
            r@.hostgroups.entries.dom().len() == 0,
            r@.stats == (WindowStats { flows_ingested: 0, flows_unscoped: 0, snapshots_emitted: 0, evicted: 0, rejected: 0, skewed_ticks: 0 }),
    {
        let window = config.window;
        let r = DetectionWindows {
            hosts: BoundedMap::new(map_config(config.max_hosts, window)),
            networks: BoundedMap::new(map_config(config.max_networks, window)),
            slash24: BoundedMap::new(map_config(config.max_slash24, window)),
            hostgroups: BoundedMap::new(map_config(config.max_hostgroups, window)),
            config,
            window_start: now,
            stats: WindowStats::default(),
        };
        r
    }

    pub fn config(&self) -> (r: &WindowConfig)
        ensures
            *r == self@.config,
    {
        &self.config
    }

    pub fn stats(&self) -> (r: WindowStats)
        ensures
            r == self@.stats,
    {
        self.stats
    }

    /// Scopes currently accumulating, across every scope type (stopping
    /// at `usize::MAX`).
    pub fn scope_count(&self) -> (r: usize)
        ensures
            ({
                let total = self@.hosts.entries.len() + self@.networks.entries.len() + self@.slash24.entries.len() + self@.hostgroups.entries.len();
                r == if total > usize::MAX { usize::MAX as int } else { total as int }
            }),
    {
        let a = self.hosts.len() as u128 + self.networks.len() as u128 + self.slash24.len() as u128 + self.hostgroups.len() as u128;
        if a > usize::MAX as u128 { usize::MAX } else { a as usize }
    }

    /// Whether a tick would emit anything yet.
    pub fn is_due(&self, now: u128) -> (r: bool)
        ensures
            r == (elapsed_since(now, self@.window_start) >= self@.config.window),
    {
        let elapsed: u128 = if now >= self.window_start { now - self.window_start } else { 0 };
        elapsed >= self.config.window
    }

    /// Counts one flow against every scope of one local side: its host,
    /// the longest local prefix it matched (masked to that prefix), its
    /// /24 when it is IPv4, and its hostgroup when it has one.
    fn count_side(&mut self, registry: &PrefixRegistry, flow: &NormalizedFlow, addr: IpAddress, direction: TrafficDirection, tenant: &Option<String>, hostgroup: &Option<String>, now: u128)
        requires
            old(self).wf(),
        ensures
            final(self).wf(),
            final(self)@.config == old(self)@.config,
            final(self)@.window_start == old(self)@.window_start,
            ({
                let s = side_of(addr, direction, *tenant, *hostgroup);
                counted_keys(
                    old(self)@,
                    final(self)@,
                    side_keys(s, ScopeType::Host, registry@),
                    side_keys(s, ScopeType::Prefix, registry@),
                    side_keys(s, ScopeType::Slash24, registry@),
                    side_keys(s, ScopeType::HostgroupTotal, registry@),
                    now,
                    *flow,
                )
            }),
            final(self)@.stats.flows_ingested == old(self)@.stats.flows_ingested,
            final(self)@.stats.flows_unscoped == old(self)@.stats.flows_unscoped,
            final(self)@.stats.snapshots_emitted == old(self)@.stats.snapshots_emitted,
            final(self)@.stats.skewed_ticks == old(self)@.stats.skewed_ticks,
    {
        let ghost s = side_of(addr, direction, *tenant, *hostgroup);
        let ghost w0 = self@;
        let family = AddressFamily::of(addr);
        let t: String = match tenant {
            Some(t) => t.clone(),
            None => String::from_str(UNATTRIBUTED_TENANT),
        };
        let mut stats = self.stats;
        let ghost s0 = self.stats;
        let ghost mut eh: nat = 0;
        let ghost mut rh: nat = 0;
        let ghost mut en: nat = 0;
        let ghost mut rn: nat = 0;
        let ghost mut es: nat = 0;
        let ghost mut rs: nat = 0;
        let ghost mut eg: nat = 0;
        let ghost mut rg: nat = 0;

        let host = ScopeKey { tenant: t.clone(), scope_type: ScopeType::Host, scope_id: ScopeId::Host { addr }, direction, address_family: family };
        proof {
            assert(host@ == side_key(s, ScopeType::Host, ScopeIdView::Host(addr)));
        }
        let ghost kh = host@;
        accumulate(&mut self.hosts, host, flow, now, &mut stats);
        proof {
            eh = if evicts(w0.hosts, kh) { 1nat } else { 0nat };
            rh = if refuses(w0.hosts) { 1nat } else { 0nat };
            lemma_counted_one(w0.hosts, self.hosts@, side_key(s, ScopeType::Host, ScopeIdView::Host(addr)), now, *flow);
            lemma_counted_keeps_type(w0.hosts, self.hosts@, host_key(s), now, *flow, eh, rh, ScopeType::Host);
        }

        match local_lookup(registry, addr) {
            Some((_, len)) => {
                let network = ScopeKey {
                    tenant: t.clone(),
                    scope_type: ScopeType::Prefix,
                    scope_id: ScopeId::Network { addr: mask(addr, len), prefix_len: len },
                    direction,
                    address_family: family,
                };
                let ghost k = side_key(s, ScopeType::Prefix, ScopeIdView::Network(mask_spec(addr, len), len));
                proof {
                    assert(network@ == k);
                }
                accumulate(&mut self.networks, network, flow, now, &mut stats);
                proof {
                    en = if evicts(w0.networks, k) { 1nat } else { 0nat };
                    rn = if refuses(w0.networks) { 1nat } else { 0nat };
                    lemma_sat_add_nat_twice(s0.evicted, eh, en);
                    lemma_sat_add_nat_twice(s0.rejected, rh, rn);
                    lemma_counted_one(w0.networks, self.networks@, k, now, *flow);
                    assert(prefix_key(s, registry@) == seq![k]);
                    lemma_counted_keeps_type(w0.networks, self.networks@, seq![k], now, *flow, en, rn, ScopeType::Prefix);
                }
            },
            None => {
                proof {
                    lemma_counted_none(w0.networks, now, *flow);
                    assert(prefix_key(s, registry@) =~= Seq::<ScopeKeyView>::empty());
                }
            },
        }

        if addr.is_ipv4() {
            let slash = ScopeKey {
                tenant: t.clone(),
                scope_type: ScopeType::Slash24,
                scope_id: ScopeId::Network { addr: mask(addr, 24), prefix_len: 24 },
                direction,
                address_family: family,
            };
            let ghost k = side_key(s, ScopeType::Slash24, ScopeIdView::Network(mask_spec(addr, 24), 24));
            proof {
                assert(slash@ == k);
            }
            accumulate(&mut self.slash24, slash, flow, now, &mut stats);
            proof {
                es = if evicts(w0.slash24, k) { 1nat } else { 0nat };
                rs = if refuses(w0.slash24) { 1nat } else { 0nat };
                lemma_sat_add_nat_twice(s0.evicted, eh + en, es);
                lemma_sat_add_nat_twice(s0.rejected, rh + rn, rs);
                lemma_counted_one(w0.slash24, self.slash24@, k, now, *flow);
                lemma_counted_keeps_type(w0.slash24, self.slash24@, seq![k], now, *flow, es, rs, ScopeType::Slash24);
            }
        } else {
            proof {
                lemma_counted_none(w0.slash24, now, *flow);
                assert(slash24_key(s) =~= Seq::<ScopeKeyView>::empty());
            }
        }

        match hostgroup {
            Some(name) => {
                let group = ScopeKey {
                    tenant: t,
                    scope_type: ScopeType::HostgroupTotal,
                    scope_id: ScopeId::Hostgroup { name: name.clone() },
                    direction,
                    address_family: family,
                };
                let ghost k = side_key(s, ScopeType::HostgroupTotal, ScopeIdView::Hostgroup(name@));
                proof {
                    assert(group@ == k);
                }
                accumulate(&mut self.hostgroups, group, flow, now, &mut stats);
                proof {
                    eg = if evicts(w0.hostgroups, k) { 1nat } else { 0nat };
                    rg = if refuses(w0.hostgroups) { 1nat } else { 0nat };
                    lemma_sat_add_nat_twice(s0.evicted, eh + en + es, eg);
                    lemma_sat_add_nat_twice(s0.rejected, rh + rn + rs, rg);
                    lemma_counted_one(w0.hostgroups, self.hostgroups@, k, now, *flow);
                    lemma_counted_keeps_type(w0.hostgroups, self.hostgroups@, seq![k], now, *flow, eg, rg, ScopeType::HostgroupTotal);
                }
            },
            None => {
                proof {
                    lemma_counted_none(w0.hostgroups, now, *flow);
                    assert(hostgroup_key(s) =~= Seq::<ScopeKeyView>::empty());
                }
            },
        }
        self.stats = stats;
        proof {
            let w1 = self@;
            assert(counted_all(w0.hosts, w1.hosts, side_keys(s, ScopeType::Host, registry@), now, *flow, eh, rh));
            assert(counted_all(w0.networks, w1.networks, side_keys(s, ScopeType::Prefix, registry@), now, *flow, en, rn));
            assert(counted_all(w0.slash24, w1.slash24, side_keys(s, ScopeType::Slash24, registry@), now, *flow, es, rs));
            assert(counted_all(w0.hostgroups, w1.hostgroups, side_keys(s, ScopeType::HostgroupTotal, registry@), now, *flow, eg, rg));
            assert(w1.stats.evicted == sat_add_nat(w0.stats.evicted, eh + en + es + eg));
            assert(w1.stats.rejected == sat_add_nat(w0.stats.rejected, rh + rn + rs + rg));
        }
    }

    /// Counts one classified flow against every scope it belongs to: the
    /// scopes of each local side (see [`sides_spec`]), and as unscoped
    /// when it has none.
    pub fn ingest(&mut self, registry: &PrefixRegistry, flow: &NormalizedFlow, classification: &ClassificationResult, now: u128)
        requires
            old(self).wf(),
        ensures
            final(self).wf(),
            final(self)@.config == old(self)@.config,
            final(self)@.window_start == old(self)@.window_start,
            ingested(old(self)@, final(self)@, registry@, *flow, *classification, now),
            final(self)@.stats.flows_ingested == sat_add(old(self)@.stats.flows_ingested, 1),
            final(self)@.stats.flows_unscoped == if sides_spec(*flow, *classification).len() == 0 {
                sat_add(old(self)@.stats.flows_unscoped, 1)
            } else {
                old(self)@.stats.flows_unscoped
            },
            final(self)@.stats.snapshots_emitted == old(self)@.stats.snapshots_emitted,
            final(self)@.stats.skewed_ticks == old(self)@.stats.skewed_ticks,
    {
        let ghost w0 = self@;
        let ghost r = registry@;
        let ghost c = *classification;
        let ghost f = *flow;
        self.stats.flows_ingested = if self.stats.flows_ingested == u64::MAX { u64::MAX } else { self.stats.flows_ingested + 1 };
        let ghost w1 = self@;
        let ghost inbound = side_of(flow.destination_addr, TrafficDirection::Incoming, c.destination_matched_tenant, c.destination_matched_hostgroup);
        let ghost outbound = side_of(flow.source_addr, TrafficDirection::Outgoing, c.source_matched_tenant, c.source_matched_hostgroup);
        match classification.direction {
            Direction::Incoming => {
                self.count_side(registry, flow, flow.destination_addr, TrafficDirection::Incoming, &classification.destination_matched_tenant, &classification.destination_matched_hostgroup, now);
                proof {
                    assert(sides_spec(f, c) == seq![inbound]);
                    lemma_keys_one(inbound, ScopeType::Host, r);
                    lemma_keys_one(inbound, ScopeType::Prefix, r);
                    lemma_keys_one(inbound, ScopeType::Slash24, r);
                    lemma_keys_one(inbound, ScopeType::HostgroupTotal, r);
                    lemma_counted_keys_alike(w1, self@, w0, self@, side_keys(inbound, ScopeType::Host, r), side_keys(inbound, ScopeType::Prefix, r),
                        side_keys(inbound, ScopeType::Slash24, r), side_keys(inbound, ScopeType::HostgroupTotal, r), now, f);
                }
            },
            Direction::Outgoing => {
                self.count_side(registry, flow, flow.source_addr, TrafficDirection::Outgoing, &classification.source_matched_tenant, &classification.source_matched_hostgroup, now);
                proof {
                    assert(sides_spec(f, c) == seq![outbound]);
                    lemma_keys_one(outbound, ScopeType::Host, r);
                    lemma_keys_one(outbound, ScopeType::Prefix, r);
                    lemma_keys_one(outbound, ScopeType::Slash24, r);
                    lemma_keys_one(outbound, ScopeType::HostgroupTotal, r);
                    lemma_counted_keys_alike(w1, self@, w0, self@, side_keys(outbound, ScopeType::Host, r), side_keys(outbound, ScopeType::Prefix, r),
                        side_keys(outbound, ScopeType::Slash24, r), side_keys(outbound, ScopeType::HostgroupTotal, r), now, f);
                }
            },
            Direction::Internal => {
                self.count_side(registry, flow, flow.destination_addr, TrafficDirection::Incoming, &classification.destination_matched_tenant, &classification.destination_matched_hostgroup, now);
                let ghost w2 = self@;
                self.count_side(registry, flow, flow.source_addr, TrafficDirection::Outgoing, &classification.source_matched_tenant, &classification.source_matched_hostgroup, now);
                proof {
                    assert(sides_spec(f, c) == seq![inbound, outbound]);
                    lemma_keys_two(inbound, outbound, ScopeType::Host, r);
                    lemma_keys_two(inbound, outbound, ScopeType::Prefix, r);
                    lemma_keys_two(inbound, outbound, ScopeType::Slash24, r);
                    lemma_keys_two(inbound, outbound, ScopeType::HostgroupTotal, r);
                    lemma_counted_keys_concat(w1, w2, self@,
                        side_keys(inbound, ScopeType::Host, r), side_keys(inbound, ScopeType::Prefix, r),
                        side_keys(inbound, ScopeType::Slash24, r), side_keys(inbound, ScopeType::HostgroupTotal, r),
                        side_keys(outbound, ScopeType::Host, r), side_keys(outbound, ScopeType::Prefix, r),
                        side_keys(outbound, ScopeType::Slash24, r), side_keys(outbound, ScopeType::HostgroupTotal, r), now, f);
                    lemma_counted_keys_alike(w1, self@, w0, self@, keys_of_sides(seq![inbound, outbound], ScopeType::Host, r),
                        keys_of_sides(seq![inbound, outbound], ScopeType::Prefix, r), keys_of_sides(seq![inbound, outbound], ScopeType::Slash24, r),
                        keys_of_sides(seq![inbound, outbound], ScopeType::HostgroupTotal, r), now, f);
                }
            },
            _ => {
                self.stats.flows_unscoped = if self.stats.flows_unscoped == u64::MAX { u64::MAX } else { self.stats.flows_unscoped + 1 };
                proof {
                    assert(sides_spec(f, c) =~= Seq::<Side>::empty());
                    lemma_counted_none(w0.hosts, now, f);
                    lemma_counted_none(w0.networks, now, f);
                    lemma_counted_none(w0.slash24, now, f);
                    lemma_counted_none(w0.hostgroups, now, f);
                    assert(keys_of_sides(sides_spec(f, c), ScopeType::Host, r) =~= Seq::<ScopeKeyView>::empty());
                    assert(keys_of_sides(sides_spec(f, c), ScopeType::Prefix, r) =~= Seq::<ScopeKeyView>::empty());
                    assert(keys_of_sides(sides_spec(f, c), ScopeType::Slash24, r) =~= Seq::<ScopeKeyView>::empty());
                    assert(keys_of_sides(sides_spec(f, c), ScopeType::HostgroupTotal, r) =~= Seq::<ScopeKeyView>::empty());
                    assert(sat_add_nat(w0.stats.evicted, 0nat + 0nat + 0nat + 0nat) == w0.stats.evicted);
                    assert(sat_add_nat(w0.stats.rejected, 0nat + 0nat + 0nat + 0nat) == w0.stats.rejected);
                    assert(counted_all(w0.hosts, self@.hosts, keys_of_sides(sides_spec(f, c), ScopeType::Host, r), now, f, 0, 0));
                    assert(counted_all(w0.networks, self@.networks, keys_of_sides(sides_spec(f, c), ScopeType::Prefix, r), now, f, 0, 0));
                    assert(counted_all(w0.slash24, self@.slash24, keys_of_sides(sides_spec(f, c), ScopeType::Slash24, r), now, f, 0, 0));
                    assert(counted_all(w0.hostgroups, self@.hostgroups, keys_of_sides(sides_spec(f, c), ScopeType::HostgroupTotal, r), now, f, 0, 0));
                    assert(ingested(w0, self@, r, f, c, now));
                }
            },
        }
    }

    /// Closes the window if it is due: returns one snapshot per scope in
    /// ascending key order and starts a fresh window at `now` (see
    /// [`ticked`]). Before the window is due it returns nothing and
    /// changes nothing, so a caller may tick as often as it likes.
    pub fn tick(&mut self, now: u128, wall: i128) -> (r: Vec<DetectionSnapshot>)
        requires
            old(self).wf(),
        ensures
            final(self).wf(),
            elapsed_since(now, old(self)@.window_start) < old(self)@.config.window ==> r@.len() == 0 && final(self)@ == old(self)@,
            elapsed_since(now, old(self)@.window_start) >= old(self)@.config.window ==> ticked(old(self)@, final(self)@, r@, now, wall),
    {
        let ghost w0 = self@;
        let elapsed: u128 = if now >= self.window_start { now - self.window_start } else { 0 };
        if elapsed < self.config.window {
            return Vec::new();
        }
        let window = self.config.window;
        if skewed(elapsed, window) {
            self.stats.skewed_ticks = if self.stats.skewed_ticks == u64::MAX { u64::MAX } else { self.stats.skewed_ticks + 1 };
        }
        let mut snapshots: Vec<DetectionSnapshot> = Vec::new();
        collect(&self.hosts, &mut snapshots, window, elapsed, now, wall);
        let ghost n1 = snapshots@.len();
        let ghost v1 = snapshots@;
        collect(&self.networks, &mut snapshots, window, elapsed, now, wall);
        let ghost n2 = snapshots@.len();
        let ghost v2 = snapshots@;
        collect(&self.slash24, &mut snapshots, window, elapsed, now, wall);
        let ghost n3 = snapshots@.len();
        let ghost v3 = snapshots@;
        collect(&self.hostgroups, &mut snapshots, window, elapsed, now, wall);
        let ghost v = snapshots@;
        proof {
            // Each segment keeps what came before it.
            assert forall|i: int| 0 <= i < n1 implies v[i] == v1[i] by {
                assert(v.subrange(0, n3 as int)[i] == v3[i]);
                assert(v3.subrange(0, n2 as int)[i] == v2[i]);
                assert(v2.subrange(0, n1 as int)[i] == v1[i]);
            }
            assert forall|i: int| n1 <= i < n2 implies v[i] == v2[i] by {
                assert(v.subrange(0, n3 as int)[i] == v3[i]);
                assert(v3.subrange(0, n2 as int)[i] == v2[i]);
            }
            assert forall|i: int| n2 <= i < n3 implies v[i] == v3[i] by {
                assert(v.subrange(0, n3 as int)[i] == v3[i]);
            }
            // Every snapshot is of a key in the map of its own type.
            assert forall|i: int| 0 <= i < v.len() implies map_for(w0, (#[trigger] v[i]).key@).entries.dom().contains(v[i].key@)
                && snapshot_of(v[i], v[i].key@, map_for(w0, v[i].key@).entries[v[i].key@].0, window, elapsed, now, wall) by {
                if i < n1 {
                    assert(v1[i] == v[i]);
                    assert(w0.hosts.entries.dom().contains(v[i].key@));
                } else if i < n2 {
                    assert(v2[i] == v[i]);
                    assert(w0.networks.entries.dom().contains(v[i].key@));
                } else if i < n3 {
                    assert(v3[i] == v[i]);
                    assert(w0.slash24.entries.dom().contains(v[i].key@));
                } else {
                    assert(w0.hostgroups.entries.dom().contains(v[i].key@));
                }
            }
            assert forall|k: ScopeKeyView| #[trigger] map_for(w0, k).entries.dom().contains(k) implies exists|i: int| 0 <= i < v.len() && v[i].key@ == k by {
                match k.scope_type {
                    ScopeType::Host => {
                        assert(w0.hosts.entries.dom().contains(k));
                        let i = choose|i: int| 0 <= i < v1.len() && v1[i].key@ == k;
                        assert(v[i] == v1[i]);
                    },
                    ScopeType::Prefix => {
                        assert(w0.networks.entries.dom().contains(k));
                        let i = choose|i: int| n1 <= i < v2.len() && v2[i].key@ == k;
                        assert(v[i] == v2[i]);
                    },
                    ScopeType::Slash24 => {
                        assert(w0.slash24.entries.dom().contains(k));
                        let i = choose|i: int| n2 <= i < v3.len() && v3[i].key@ == k;
                        assert(v[i] == v3[i]);
                    },
                    ScopeType::HostgroupTotal => {
                        assert(w0.hostgroups.entries.dom().contains(k));
                    },
                }
            }
            // Keys are distinct: within a segment by construction, across
            // segments by scope type.
            assert forall|a: int, b: int| 0 <= a < b < v.len() implies snapshot_keys(v)[a] != snapshot_keys(v)[b] by {
                assert(snapshot_keys(v)[a] == v[a].key@);
                assert(snapshot_keys(v)[b] == v[b].key@);
                assert(map_for(w0, v[a].key@).entries.dom().contains(v[a].key@));
                assert(map_for(w0, v[b].key@).entries.dom().contains(v[b].key@));
                if b < n1 {
                    assert(v1[a] == v[a] && v1[b] == v[b]);
                } else if a >= n1 && b < n2 {
                    assert(v2[a] == v[a] && v2[b] == v[b]);
                } else if a >= n2 && b < n3 {
                    assert(v3[a] == v[a] && v3[b] == v[b]);
                } else if a >= n3 {
                } else {
                    let ta = if a < n1 { ScopeType::Host } else if a < n2 { ScopeType::Prefix } else { ScopeType::Slash24 };
                    let tb = if b < n2 { ScopeType::Prefix } else if b < n3 { ScopeType::Slash24 } else { ScopeType::HostgroupTotal };
                    if a < n1 { assert(v1[a] == v[a]); assert(w0.hosts.entries.dom().contains(v[a].key@)); }
                    else if a < n2 { assert(v2[a] == v[a]); assert(w0.networks.entries.dom().contains(v[a].key@)); }
                    else { assert(v3[a] == v[a]); assert(w0.slash24.entries.dom().contains(v[a].key@)); }
                    if b < n2 { assert(v2[b] == v[b]); assert(w0.networks.entries.dom().contains(v[b].key@)); }
                    else if b < n3 { assert(v3[b] == v[b]); assert(w0.slash24.entries.dom().contains(v[b].key@)); }
                    else { assert(w0.hostgroups.entries.dom().contains(v[b].key@)); }
                    assert(v[a].key@.scope_type == ta);
                    assert(v[b].key@.scope_type == tb);
                }
            }
            assert(snapshot_keys(v).no_duplicates());
        }
        self.hosts = BoundedMap::new(map_config(self.config.max_hosts, window));
        self.networks = BoundedMap::new(map_config(self.config.max_networks, window));
        self.slash24 = BoundedMap::new(map_config(self.config.max_slash24, window));
        self.hostgroups = BoundedMap::new(map_config(self.config.max_hostgroups, window));
        let sorted = sort_snapshots(snapshots);
        let count: u64 = sorted.len() as u64;
        self.stats.snapshots_emitted = match self.stats.snapshots_emitted.checked_add(count) {
            Some(x) => x,
            None => u64::MAX,
        };
        self.window_start = now;
        proof {
            assert forall|i: int| 0 <= i < sorted@.len() implies map_for(w0, (#[trigger] sorted@[i]).key@).entries.dom().contains(sorted@[i].key@)
                && snapshot_of(sorted@[i], sorted@[i].key@, map_for(w0, sorted@[i].key@).entries[sorted@[i].key@].0, window, elapsed, now, wall) by {
                assert(sorted@.contains(sorted@[i]));
                let j = choose|j: int| 0 <= j < v.len() && v[j] == sorted@[i];
            }
            assert forall|k: ScopeKeyView| #[trigger] map_for(w0, k).entries.dom().contains(k) implies exists|i: int| 0 <= i < sorted@.len() && sorted@[i].key@ == k by {
                let j = choose|j: int| 0 <= j < v.len() && v[j].key@ == k;
                assert(v.contains(v[j]));
                assert(sorted@.contains(v[j]));
            }
        }
        sorted
    }
}

} // verus!
