//! Detection policies: what an operator writes, and what the engine
//! refuses to accept.
//!
//! Every shape of policy that would quietly produce silence or a storm
//! of alerts is rejected at load time with an error naming the policy
//! and the field. Durations are nanoseconds.

use vstd::prelude::*;

verus! {

use crate::input::{AddressFamily, MetricKind, ScopeId, ScopeIdView, ScopeKey, ScopeKeyView, ScopeType, TrafficDirection, metric_index, lemma_metric_index_injective};
use crate::net::{IpAddress, family_bits};
use crate::text::{chars_of, chars_order, is_alnum, is_blank, is_blank_spec, text_eq, KeyOrder};
use crate::render::{char_debug_text, debug_text, decimal, duration_text, ip_text, push_char_debug, push_decimal, push_duration, push_ip, push_quoted, push_text, string_from_chars};

/// Hard bounds on policy content.
pub const MAX_POLICY_ID_LEN: usize = 128;
pub const MAX_POLICY_NAME_LEN: usize = 256;
pub const MAX_DESCRIPTION_LEN: usize = 2048;
pub const MAX_LABELS: usize = 16;
pub const MAX_LABEL_KEY_LEN: usize = 64;
pub const MAX_LABEL_VALUE_LEN: usize = 256;
/// Nanoseconds in one second.
pub const NANOS_PER_SEC: u128 = 1_000_000_000;
/// Longest window the engine will evaluate against: 300 seconds.
pub const MAX_WINDOW: u128 = 300_000_000_000;
/// Longest any single timer may be set to: seven days.
pub const MAX_TIMER: u128 = 604_800_000_000_000;
/// The default clear percentage.
pub const DEFAULT_CLEAR_PERCENT: u8 = 80;

/// The tenant value that means "every tenant".
pub const WILDCARD_TENANT: &'static str = "*";

/// The wildcard tenant, as characters.
pub open spec fn wildcard_tenant() -> Seq<char> {
    seq!['*']
}

/// Whether `t` is the wildcard tenant.
pub fn is_wildcard_tenant(t: &str) -> (r: bool)
    ensures
        r == (t@ == wildcard_tenant()),
{
    let v = chars_of(t);
    if v.len() == 1 && v[0] == '*' {
        assert(v@ =~= wildcard_tenant());
        true
    } else {
        false
    }
}

/// What the engine is allowed to do when a policy matches.
#[derive(Debug, Clone, Copy, PartialEq, Eq, Hash, PartialOrd, Ord, Structural)]
pub enum ExecutionMode {
    /// Not evaluated at all.
    Disabled,
    /// Evaluated, state advanced, but no event leaves the engine.
    Observe,
    /// Evaluated and events emitted. Never requests mitigation.
    AlertOnly,
    /// Evaluated and events emitted, each marked as not executed.
    DryRun,
}

impl ExecutionMode {
    pub open spec fn name(self) -> Seq<char> {
        match self {
            ExecutionMode::Disabled => "disabled"@,
            ExecutionMode::Observe => "observe"@,
            ExecutionMode::AlertOnly => "alertOnly"@,
            ExecutionMode::DryRun => "dryRun"@,
        }
    }

    pub fn as_str(&self) -> (r: &'static str)
        ensures
            r@ == self.name(),
    {
        match self {
            ExecutionMode::Disabled => "disabled",
            ExecutionMode::Observe => "observe",
            ExecutionMode::AlertOnly => "alertOnly",
            ExecutionMode::DryRun => "dryRun",
        }
    }

    pub open spec fn evaluates_spec(self) -> bool {
        self != ExecutionMode::Disabled
    }

    /// Whether this mode evaluates traffic at all.
    pub fn evaluates(&self) -> (r: bool)
        ensures
            r == self.evaluates_spec(),
    {
        !matches!(self, ExecutionMode::Disabled)
    }

    pub open spec fn emits_events_spec(self) -> bool {
        self == ExecutionMode::AlertOnly || self == ExecutionMode::DryRun
    }

    /// Whether this mode lets events reach a sink.
    pub fn emits_events(&self) -> (r: bool)
        ensures
            r == self.emits_events_spec(),
    {
        matches!(self, ExecutionMode::AlertOnly | ExecutionMode::DryRun)
    }
}

#[derive(Debug, Clone, Copy, PartialEq, Eq, Hash, PartialOrd, Ord, Structural)]
pub enum Severity {
    Info,
    Minor,
    Major,
    Critical,
}

impl Severity {
    pub open spec fn name(self) -> Seq<char> {
        match self {
            Severity::Info => "info"@,
            Severity::Minor => "minor"@,
            Severity::Major => "major"@,
            Severity::Critical => "critical"@,
        }
    }

    pub fn as_str(&self) -> (r: &'static str)
        ensures
            r@ == self.name(),
    {
        match self {
            Severity::Info => "info",
            Severity::Minor => "minor",
            Severity::Major => "major",
            Severity::Critical => "critical",
        }
    }
}

/// What a policy is written against. `Any` matches every scope of the
/// policy's declared type within its tenant.
#[derive(Debug, Clone, PartialEq, Eq, Hash)]
pub enum PolicySelector {
    Host { addr: IpAddress },
    Network { addr: IpAddress, prefix_len: u8 },
    Hostgroup { name: String },
    Any,
}

pub enum PolicySelectorView {
    Host(IpAddress),
    Network(IpAddress, u8),
    Hostgroup(Seq<char>),
    Any,
}

impl View for PolicySelector {
    type V = PolicySelectorView;

    open spec fn view(&self) -> PolicySelectorView {
        match self {
            PolicySelector::Host { addr } => PolicySelectorView::Host(*addr),
            PolicySelector::Network { addr, prefix_len } => PolicySelectorView::Network(*addr, *prefix_len),
            PolicySelector::Hostgroup { name } => PolicySelectorView::Hostgroup(name@),
            PolicySelector::Any => PolicySelectorView::Any,
        }
    }
}

impl PolicySelector {
    pub fn duplicate(&self) -> (r: PolicySelector)
        ensures
            r@ == self@,
    {
        match self {
            PolicySelector::Host { addr } => PolicySelector::Host { addr: *addr },
            PolicySelector::Network { addr, prefix_len } => PolicySelector::Network { addr: *addr, prefix_len: *prefix_len },
            PolicySelector::Hostgroup { name } => PolicySelector::Hostgroup { name: name.clone() },
            PolicySelector::Any => PolicySelector::Any,
        }
    }
}

/// Thresholds sorted strictly by metric position: each metric at most
/// once, in declaration order.
pub open spec fn thresholds_sorted(s: Seq<(MetricKind, u64)>) -> bool {
    forall|i: int, j: int| 0 <= i < j < s.len() ==> metric_index(#[trigger] s[i].0) < metric_index(#[trigger] s[j].0)
}

/// The threshold recorded for `k`, if any.
pub open spec fn threshold_lookup(s: Seq<(MetricKind, u64)>, k: MetricKind) -> Option<u64>
    decreases s.len(),
{
    if s.len() == 0 {
        None
    } else if s.last().0 == k {
        Some(s.last().1)
    } else {
        threshold_lookup(s.drop_last(), k)
    }
}

/// The kinds a run of threshold writes sets.
pub open spec fn written_kinds(writes: Seq<(MetricKind, u64)>) -> Set<MetricKind> {
    Set::new(|k: MetricKind| threshold_lookup(writes, k) is Some)
}

proof fn lemma_sorted_lookup(s: Seq<(MetricKind, u64)>, i: int)
    requires
        thresholds_sorted(s),
        0 <= i < s.len(),
    ensures
        threshold_lookup(s, s[i].0) == Some(s[i].1),
    decreases s.len(),
{
    if i < s.len() - 1 {
        assert(metric_index(s[i].0) < metric_index(s.last().0));
        assert(thresholds_sorted(s.drop_last()));
        assert(s.drop_last()[i] == s[i]);
        lemma_sorted_lookup(s.drop_last(), i);
    }
}

proof fn lemma_lookup_found(s: Seq<(MetricKind, u64)>, k: MetricKind)
    requires
        threshold_lookup(s, k) is Some,
    ensures
        exists|i: int| 0 <= i < s.len() && #[trigger] s[i].0 == k && Some(s[i].1) == threshold_lookup(s, k),
    decreases s.len(),
{
    if s.last().0 == k {
        assert(s[s.len() - 1].0 == k);
    } else {
        lemma_lookup_found(s.drop_last(), k);
        let i = choose|i: int| 0 <= i < s.drop_last().len() && #[trigger] s.drop_last()[i].0 == k
            && Some(s.drop_last()[i].1) == threshold_lookup(s.drop_last(), k);
        assert(s[i] == s.drop_last()[i]);
    }
}

/// Thresholds built by a chain of `with` calls, whatever their order,
/// hold each kind written once, with the value of its last write, in
/// metric order: one more write replaces that kind's value and leaves
/// every other kind's, and a sorted sequence holding exactly the last
/// write of each kind lists each written kind once.
pub proof fn law_thresholds_keep_each_kind_once(s: Seq<(MetricKind, u64)>, writes: Seq<(MetricKind, u64)>, kind: MetricKind, value: u64)
    requires
        thresholds_sorted(s),
        forall|k: MetricKind| #[trigger] threshold_lookup(s, k) == threshold_lookup(writes, k),
    ensures
        forall|k: MetricKind| #[trigger] threshold_lookup(writes.push((kind, value)), k) == if k == kind {
            Some(value)
        } else {
            threshold_lookup(writes, k)
        },
        forall|i: int| 0 <= i < s.len() ==> threshold_lookup(writes, #[trigger] s[i].0) == Some(s[i].1),
        forall|i: int, j: int| 0 <= i < j < s.len() ==> metric_index(#[trigger] s[i].0) < metric_index(#[trigger] s[j].0),
        forall|k: MetricKind| threshold_lookup(writes, k) is Some ==> exists|i: int| 0 <= i < s.len() && #[trigger] s[i].0 == k,
        s.len() == written_kinds(writes).len(),
{
    assert forall|k: MetricKind| #[trigger] threshold_lookup(writes.push((kind, value)), k) == if k == kind {
        Some(value)
    } else {
        threshold_lookup(writes, k)
    } by {
        assert(writes.push((kind, value)).drop_last() =~= writes);
    }
    assert forall|i: int| 0 <= i < s.len() implies threshold_lookup(writes, #[trigger] s[i].0) == Some(s[i].1) by {
        lemma_sorted_lookup(s, i);
    }
    assert forall|k: MetricKind| threshold_lookup(writes, k) is Some implies exists|i: int| 0 <= i < s.len() && #[trigger] s[i].0 == k by {
        lemma_lookup_found(s, k);
    }
    let kinds = s.map_values(|e: (MetricKind, u64)| e.0);
    assert(kinds.no_duplicates()) by {
        assert forall|i: int, j: int| 0 <= i < s.len() && 0 <= j < s.len() && i != j implies kinds[i] != kinds[j] by {
            if i < j {
                assert(metric_index(s[i].0) < metric_index(s[j].0));
            } else {
                assert(metric_index(s[j].0) < metric_index(s[i].0));
            }
        }
    }
    assert(kinds.to_set() =~= written_kinds(writes)) by {
        assert forall|k: MetricKind| kinds.to_set().contains(k) <==> written_kinds(writes).contains(k) by {
            if kinds.to_set().contains(k) {
                let i = choose|i: int| 0 <= i < kinds.len() && kinds[i] == k;
                lemma_sorted_lookup(s, i);
            }
            if written_kinds(writes).contains(k) {
                lemma_lookup_found(s, k);
                let i = choose|i: int| 0 <= i < s.len() && #[trigger] s[i].0 == k && Some(s[i].1) == threshold_lookup(s, k);
                assert(kinds[i] == k);
            }
        }
    }
    kinds.unique_seq_to_set();
}

proof fn lemma_lookup_some(s: Seq<(MetricKind, u64)>, k: MetricKind)
    ensures
        threshold_lookup(s, k) is Some <==> exists|i: int| 0 <= i < s.len() && s[i].0 == k,
        threshold_lookup(s, k) matches Some(v) ==> exists|i: int| 0 <= i < s.len() && s[i] == (k, v),
    decreases s.len(),
{
    if s.len() > 0 {
        lemma_lookup_some(s.drop_last(), k);
        if threshold_lookup(s.drop_last(), k) is Some {
            let i = choose|i: int| 0 <= i < s.drop_last().len() && s.drop_last()[i].0 == k;
            assert(s[i].0 == k);
        }
        if exists|i: int| 0 <= i < s.len() && s[i].0 == k {
            let i = choose|i: int| 0 <= i < s.len() && s[i].0 == k;
            if i < s.len() - 1 {
                assert(s.drop_last()[i].0 == k);
            }
        }
        if let Some(v) = threshold_lookup(s.drop_last(), k) {
            if s.last().0 != k {
                let i = choose|i: int| 0 <= i < s.drop_last().len() && s.drop_last()[i] == (k, v);
                assert(s[i] == (k, v));
            }
        }
    }
}

proof fn lemma_lookup_at(s: Seq<(MetricKind, u64)>, i: int)
    requires
        thresholds_sorted(s),
        0 <= i < s.len(),
    ensures
        threshold_lookup(s, s[i].0) == Some(s[i].1),
    decreases s.len(),
{
    if i < s.len() - 1 {
        assert(metric_index(s[i].0) < metric_index(s.last().0));
        assert(s.drop_last()[i] == s[i]);
        lemma_lookup_at(s.drop_last(), i);
    }
}

/// Threshold values in canonical units, one per metric at most,
/// iterated in metric declaration order.
#[derive(Debug, PartialEq, Eq)]
pub struct Thresholds {
    entries: Vec<(MetricKind, u64)>,
}

impl View for Thresholds {
    type V = Seq<(MetricKind, u64)>;

    closed spec fn view(&self) -> Seq<(MetricKind, u64)> {
        self.entries@
    }
}

impl Clone for Thresholds {
    fn clone(&self) -> (r: Thresholds)
        ensures
            r@ == self@,
    {
        let entries = self.iter();
        Thresholds { entries }
    }
}

impl Default for Thresholds {
    fn default() -> (r: Thresholds)
        ensures
            r@ == Seq::<(MetricKind, u64)>::empty(),
    {
        Thresholds::new()
    }
}

/// `ts` is a run of `Thresholds::with` calls from `Thresholds::new`:
/// `ts[0]` is empty and `ts[i + 1]` is what writing `writes[i]` onto
/// `ts[i]` gives (see the contract of [`Thresholds::with`]).
pub open spec fn with_run(ts: Seq<Seq<(MetricKind, u64)>>, writes: Seq<(MetricKind, u64)>) -> bool {
    &&& ts.len() == writes.len() + 1
    &&& ts[0] == Seq::<(MetricKind, u64)>::empty()
    &&& forall|i: int| 0 <= i < writes.len() ==> {
        &&& thresholds_sorted(#[trigger] ts[i + 1])
        &&& forall|k: MetricKind| #[trigger] threshold_lookup(ts[i + 1], k) == (if k == writes[i].0 { Some(writes[i].1) } else { threshold_lookup(ts[i], k) })
    }
}

proof fn lemma_with_run_lookup(ts: Seq<Seq<(MetricKind, u64)>>, writes: Seq<(MetricKind, u64)>, n: int)
    requires
        with_run(ts, writes),
        0 <= n <= writes.len(),
    ensures
        forall|k: MetricKind| #[trigger] threshold_lookup(ts[n], k) == threshold_lookup(writes.take(n), k),
    decreases n,
{
    if n > 0 {
        lemma_with_run_lookup(ts, writes, n - 1);
        assert(writes.take(n).drop_last() =~= writes.take(n - 1));
        assert(writes.take(n).last() == writes[n - 1]);
        assert forall|k: MetricKind| #[trigger] threshold_lookup(ts[n], k) == threshold_lookup(writes.take(n), k) by {
            assert(threshold_lookup(ts[(n - 1) + 1], k) == (if k == writes[n - 1].0 { Some(writes[n - 1].1) } else { threshold_lookup(ts[n - 1], k) }));
        }
    } else {
        assert(writes.take(0) =~= Seq::<(MetricKind, u64)>::empty());
    }
}

/// After any run of `with` calls from `Thresholds::new`, in any order of
/// kinds, the thresholds hold one entry per distinct kind written, in
/// ascending metric order, each with the value of that kind's last
/// write, and nothing else.
pub proof fn law_with_runs_keep_each_kind_once(ts: Seq<Seq<(MetricKind, u64)>>, writes: Seq<(MetricKind, u64)>)
    requires
        with_run(ts, writes),
    ensures
        ({
            let last = ts[writes.len() as int];
            &&& forall|i: int, j: int| 0 <= i < j < last.len() ==> metric_index(#[trigger] last[i].0) < metric_index(#[trigger] last[j].0)
            &&& forall|i: int| 0 <= i < last.len() ==> threshold_lookup(writes, #[trigger] last[i].0) == Some(last[i].1)
            &&& forall|k: MetricKind| threshold_lookup(writes, k) is Some ==> exists|i: int| 0 <= i < last.len() && #[trigger] last[i].0 == k
            &&& last.len() == written_kinds(writes).len()
        }),
{
    let n = writes.len() as int;
    lemma_with_run_lookup(ts, writes, n);
    assert(writes.take(n) =~= writes);
    let last = ts[n];
    if n == 0 {
        assert(last.len() == 0);
        assert(thresholds_sorted(last));
    } else {
        assert(thresholds_sorted(ts[(n - 1) + 1]));
    }
    law_thresholds_keep_each_kind_once(last, writes, MetricKind::Bps, 0);
}

impl Thresholds {
    #[verifier::type_invariant]
    spec fn sorted_inv(self) -> bool {
        thresholds_sorted(self.entries@)
    }

    pub fn new() -> (r: Thresholds)
        ensures
            r@ == Seq::<(MetricKind, u64)>::empty(),
    {
        Thresholds { entries: Vec::new() }
    }

    /// Sets the threshold for `kind`, replacing any earlier value.
    pub fn with(self, kind: MetricKind, canonical_value: u64) -> (r: Thresholds)
        ensures
            thresholds_sorted(r@),
            forall|k: MetricKind| #[trigger] threshold_lookup(r@, k) == (if k == kind { Some(canonical_value) } else { threshold_lookup(self@, k) }),
    {
        proof { use_type_invariant(&self); }
        let ghost old_s = self.entries@;
        let mut entries = self.entries;
        let n = entries.len();
        let ki = kind.index();
        let mut pos: usize = 0;
        while pos < n && entries[pos].0.index() < ki
            invariant
                entries@ == old_s,
                n == old_s.len(),
                pos <= n,
                thresholds_sorted(old_s),
                forall|j: int| 0 <= j < pos ==> metric_index(#[trigger] old_s[j].0) < ki,
            decreases n - pos,
        {
            pos = pos + 1;
        }
        let ghost new_s: Seq<(MetricKind, u64)>;
        if pos < n && entries[pos].0.index() == ki {
            proof { lemma_metric_index_injective(entries[pos as int].0, kind); }
            entries.set(pos, (kind, canonical_value));
            proof {
                new_s = old_s.update(pos as int, (kind, canonical_value));
                assert(entries@ =~= new_s);
            }
        } else {
            entries.insert(pos, (kind, canonical_value));
            proof {
                new_s = old_s.insert(pos as int, (kind, canonical_value));
                assert(entries@ =~= new_s);
            }
        }
        proof {
            assert(thresholds_sorted(new_s)) by {
                assert forall|i: int, j: int| 0 <= i < j < new_s.len() implies metric_index(#[trigger] new_s[i].0) < metric_index(#[trigger] new_s[j].0) by {
                    if pos < n && metric_index(old_s[pos as int].0) == ki {
                    } else {
                        if pos < n {
                            assert(metric_index(old_s[pos as int].0) > ki);
                        }
                        if i < pos && j > pos {
                            assert(metric_index(old_s[i].0) < ki);
                            if j - 1 > pos as int {
                                assert(metric_index(old_s[pos as int].0) <= metric_index(old_s[j - 1].0));
                            }
                        }
                        if i == pos && j > pos {
                            if j - 1 > pos as int {
                                assert(metric_index(old_s[pos as int].0) < metric_index(old_s[j - 1].0));
                            }
                        }
                    }
                }
            }
            assert forall|k: MetricKind| #[trigger] threshold_lookup(new_s, k) == (if k == kind { Some(canonical_value) } else { threshold_lookup(old_s, k) }) by {
                lemma_lookup_some(new_s, k);
                lemma_lookup_some(old_s, k);
                if k == kind {
                    let q = choose|q: int| 0 <= q < new_s.len() && new_s[q].0 == k;
                    assert(new_s[pos as int].0 == kind);
                    lemma_lookup_at(new_s, pos as int);
                } else {
                    if exists|q: int| 0 <= q < old_s.len() && old_s[q].0 == k {
                        let q = choose|q: int| 0 <= q < old_s.len() && old_s[q].0 == k;
                        lemma_lookup_at(old_s, q);
                        let q2 = if pos < n && metric_index(old_s[pos as int].0) == ki { q } else if q < pos { q } else { q + 1 };
                        if pos < n && metric_index(old_s[pos as int].0) == ki {
                            lemma_metric_index_injective(old_s[pos as int].0, kind);
                            assert(q != pos as int);
                        }
                        assert(new_s[q2] == old_s[q]);
                        lemma_lookup_at(new_s, q2);
                    } else {
                        if exists|q: int| 0 <= q < new_s.len() && new_s[q].0 == k {
                            let q = choose|q: int| 0 <= q < new_s.len() && new_s[q].0 == k;
                            if pos < n && metric_index(old_s[pos as int].0) == ki {
                                assert(old_s[q].0 == k);
                            } else if q < pos {
                                assert(old_s[q].0 == k);
                            } else if q > pos {
                                assert(old_s[q - 1].0 == k);
                            }
                        }
                    }
                }
            }
        }
        Thresholds { entries }
    }

    pub fn get(&self, kind: MetricKind) -> (r: Option<u64>)
        ensures
            r == threshold_lookup(self@, kind),
    {
        proof { use_type_invariant(self); }
        let mut i: usize = 0;
        while i < self.entries.len()
            invariant
                i <= self.entries@.len(),
                thresholds_sorted(self.entries@),
                forall|j: int| 0 <= j < i ==> #[trigger] self.entries@[j].0 != kind,
            decreases self.entries.len() - i,
        {
            if self.entries[i].0 == kind {
                proof { lemma_lookup_at(self.entries@, i as int); }
                return Some(self.entries[i].1);
            }
            i = i + 1;
        }
        proof { lemma_lookup_some(self.entries@, kind); }
        None
    }

    pub fn is_empty(&self) -> (r: bool)
        ensures
            r == (self@.len() == 0),
    {
        self.entries.len() == 0
    }

    pub fn len(&self) -> (r: usize)
        ensures
            r == self@.len(),
    {
        self.entries.len()
    }

    /// The `(metric, value)` pairs in metric declaration order.
    pub fn iter(&self) -> (r: Vec<(MetricKind, u64)>)
        ensures
            r@ == self@,
            thresholds_sorted(r@),
    {
        proof { use_type_invariant(self); }
        let mut out: Vec<(MetricKind, u64)> = Vec::new();
        let mut i: usize = 0;
        while i < self.entries.len()
            invariant
                i <= self.entries@.len(),
                out@ == self.entries@.subrange(0, i as int),
            decreases self.entries.len() - i,
        {
            out.push(self.entries[i]);
            i = i + 1;
        }
        assert(out@ =~= self.entries@);
        out
    }
}

/// How far traffic must fall, as a percentage of the trigger threshold,
/// before an active detection may start clearing. Between 1 and 100.
#[derive(Debug, Clone, Copy, PartialEq, Eq, PartialOrd, Ord)]
pub struct ClearPercent {
    percent: u8,
}

/// `trigger * percent / 100`, which never exceeds `trigger` for a
/// percentage of at most 100.
pub open spec fn clear_threshold_spec(trigger: u64, percent: u8) -> u64 {
    ((trigger as int) * (percent as int) / 100) as u64
}

impl ClearPercent {
    pub closed spec fn value(self) -> u8 {
        self.percent
    }

    #[verifier::type_invariant]
    spec fn in_range(self) -> bool {
        1 <= self.percent <= 100
    }

    /// `Some` exactly for a percentage between 1 and 100.
    pub fn new(percent: u8) -> (r: Option<ClearPercent>)
        ensures
            r is Some <==> 1 <= percent <= 100,
            r matches Some(c) ==> c.value() == percent,
    {
        if 1 <= percent && percent <= 100 {
            Some(ClearPercent { percent })
        } else {
            None
        }
    }

    /// The default of 80 percent.
    pub fn default_percent() -> (r: ClearPercent)
        ensures
            r.value() == DEFAULT_CLEAR_PERCENT,
    {
        ClearPercent { percent: DEFAULT_CLEAR_PERCENT }
    }

    pub fn get(&self) -> (r: u8)
        ensures
            r == self.value(),
            1 <= r <= 100,
    {
        proof { use_type_invariant(self); }
        self.percent
    }

    /// The clear threshold for a given trigger threshold, computed
    /// exactly without overflow.
    pub fn clear_threshold(&self, trigger: u64) -> (r: u64)
        ensures
            r == clear_threshold_spec(trigger, self.value()),
            r <= trigger,
    {
        let p = self.get();
        proof {
            assert((trigger as u128) * (p as u128) <= 0xffff_ffff_ffff_ffffu128 * 100) by (nonlinear_arith)
                requires p <= 100, trigger <= 0xffff_ffff_ffff_ffffu64;
        }
        let scaled: u128 = (trigger as u128) * (p as u128) / 100;
        proof {
            assert((trigger as int) * (p as int) <= (trigger as int) * 100) by (nonlinear_arith)
                requires p <= 100;
            assert((trigger as int) * (p as int) / 100 <= trigger) by (nonlinear_arith)
                requires (trigger as int) * (p as int) <= (trigger as int) * 100;
        }
        scaled as u64
    }
}

/// Whether `network/prefix_len` contains `addr`: same family, a length
/// within the family's width, and equal leading `prefix_len` bits.
pub open spec fn prefix_contains_spec(network: IpAddress, prefix_len: u8, addr: IpAddress) -> bool {
    match (network, addr) {
        (IpAddress::V4(n), IpAddress::V4(a)) => prefix_len <= 32 && (prefix_len == 0 || (n >> ((32 - prefix_len) as u32)) == (a >> ((32 - prefix_len) as u32))),
        (IpAddress::V6(n), IpAddress::V6(a)) => prefix_len <= 128 && (prefix_len == 0 || (n >> ((128 - prefix_len) as u32)) == (a >> ((128 - prefix_len) as u32))),
        _ => false,
    }
}

/// Whether `network/prefix_len` contains `addr`.
pub fn prefix_contains(network: IpAddress, prefix_len: u8, addr: IpAddress) -> (r: bool)
    ensures
        r == prefix_contains_spec(network, prefix_len, addr),
{
    match (network, addr) {
        (IpAddress::V4(n), IpAddress::V4(a)) => {
            if prefix_len > 32 {
                return false;
            }
            if prefix_len == 0 {
                return true;
            }
            let shift = (32 - prefix_len) as u32;
            (n >> shift) == (a >> shift)
        },
        (IpAddress::V6(n), IpAddress::V6(a)) => {
            if prefix_len > 128 {
                return false;
            }
            if prefix_len == 0 {
                return true;
            }
            let shift = (128 - prefix_len) as u32;
            (n >> shift) == (a >> shift)
        },
        _ => false,
    }
}

/// The prefixes each tenant owns, used to reject cross-tenant targeting.
#[derive(Debug, Clone, Default)]
pub struct TenantPrefixes {
    entries: Vec<(String, IpAddress, u8)>,
}

impl View for TenantPrefixes {
    type V = Seq<(Seq<char>, IpAddress, u8)>;

    closed spec fn view(&self) -> Seq<(Seq<char>, IpAddress, u8)> {
        self.entries@.map_values(|e: (String, IpAddress, u8)| (e.0@, e.1, e.2))
    }
}

/// Whether `tenant` owns a prefix that fully contains `addr/prefix_len`.
pub open spec fn covers_spec(owned: Seq<(Seq<char>, IpAddress, u8)>, tenant: Seq<char>, addr: IpAddress, prefix_len: u8) -> bool {
    exists|i: int| 0 <= i < owned.len() && (#[trigger] owned[i]).0 == tenant && owned[i].2 <= prefix_len && prefix_contains_spec(owned[i].1, owned[i].2, addr)
}

impl TenantPrefixes {
    pub fn new() -> (r: TenantPrefixes)
        ensures
            r@ == Seq::<(Seq<char>, IpAddress, u8)>::empty(),
    {
        let r = TenantPrefixes { entries: Vec::new() };
        assert(r@ =~= Seq::<(Seq<char>, IpAddress, u8)>::empty());
        r
    }

    /// Records that `tenant` owns `addr/prefix_len`.
    pub fn insert(&mut self, tenant: String, addr: IpAddress, prefix_len: u8)
        ensures
            final(self)@ == old(self)@.push((tenant@, addr, prefix_len)),
    {
        self.entries.push((tenant, addr, prefix_len));
        assert(self@ =~= old(self)@.push((tenant@, addr, prefix_len)));
    }

    pub fn is_empty(&self) -> (r: bool)
        ensures
            r == (self@.len() == 0),
    {
        self.entries.len() == 0
    }

    /// Whether `tenant` owns a prefix that fully contains `addr/prefix_len`.
    pub fn covers(&self, tenant: &str, addr: IpAddress, prefix_len: u8) -> (r: bool)
        ensures
            r == covers_spec(self@, tenant@, addr, prefix_len),
    {
        let mut i: usize = 0;
        while i < self.entries.len()
            invariant
                i <= self.entries@.len(),
                forall|j: int| 0 <= j < i ==> !({
                    let e = #[trigger] self@[j];
                    e.0 == tenant@ && e.2 <= prefix_len && prefix_contains_spec(e.1, e.2, addr)
                }),
            decreases self.entries.len() - i,
        {
            let e = &self.entries[i];
            if text_eq(e.0.as_str(), tenant) && e.2 <= prefix_len && prefix_contains(e.1, e.2, addr) {
                assert(self@[i as int] == (e.0@, e.1, e.2));
                return true;
            }
            assert(self@[i as int] == (e.0@, e.1, e.2));
            i = i + 1;
        }
        false
    }
}

/// A validated detection policy. Durations are nanoseconds.
#[derive(Debug, Clone, PartialEq, Eq)]
pub struct DetectionPolicy {
    pub id: String,
    pub name: String,
    pub description: Option<String>,
    pub enabled: bool,
    pub tenant: String,
    pub scope_type: ScopeType,
    pub selector: PolicySelector,
    /// `None` matches both families.
    pub address_family: Option<AddressFamily>,
    pub direction: TrafficDirection,
    pub window: u128,
    pub thresholds: Thresholds,
    pub clear_percent: ClearPercent,
    pub trigger_for: u128,
    pub clear_for: u128,
    pub cooldown: u128,
    pub hold_down: u128,
    pub event_update_interval: u128,
    pub severity: Severity,
    pub execution_mode: ExecutionMode,
    /// Higher wins when two policies are otherwise equally specific.
    pub priority: i32,
    /// Labels, in key order.
    pub labels: Vec<(String, String)>,
    /// Bumped by the operator when the policy's meaning changes.
    pub version: u32,
}

/// Whether a selector picks out the given scope id.
pub open spec fn selector_matches(sel: PolicySelectorView, id: ScopeIdView) -> bool {
    match (sel, id) {
        (PolicySelectorView::Any, _) => true,
        (PolicySelectorView::Host(a), ScopeIdView::Host(b)) => a == b,
        (PolicySelectorView::Network(a, la), ScopeIdView::Network(b, lb)) => a == b && la == lb,
        (PolicySelectorView::Hostgroup(a), ScopeIdView::Hostgroup(b)) => a == b,
        _ => false,
    }
}

/// Whether policy `p` could ever apply to scope `k`.
pub open spec fn matches_scope_spec(p: DetectionPolicy, k: ScopeKeyView) -> bool {
    &&& p.enabled
    &&& (p.tenant@ == wildcard_tenant() || p.tenant@ == k.tenant)
    &&& p.scope_type == k.scope_type
    &&& p.direction == k.direction
    &&& (p.address_family matches Some(f) ==> f == k.address_family)
    &&& selector_matches(p.selector@, k.scope_id)
}

/// How specific a policy is: a named tenant always outranks the
/// wildcard, then scope type, then selector, then a declared family.
pub open spec fn specificity_spec(p: DetectionPolicy) -> u32 {
    let scope = (p.scope_type.specificity_spec() as int) * 1000;
    let selector: int = match p.selector@ {
        PolicySelectorView::Host(_) => 900,
        PolicySelectorView::Network(_, len) => 100 + len as int,
        PolicySelectorView::Hostgroup(_) => 50,
        PolicySelectorView::Any => 0,
    };
    let family: int = if p.address_family is Some { 1 } else { 0 };
    let tenant: int = if p.tenant@ == wildcard_tenant() { 0 } else { 1_000_000 };
    (tenant + scope + selector + family) as u32
}

impl DetectionPolicy {
    /// The clear threshold for one metric, or `None` when the policy has
    /// no trigger threshold for it.
    pub fn clear_threshold(&self, kind: MetricKind) -> (r: Option<u64>)
        ensures
            r == (match threshold_lookup(self.thresholds@, kind) {
                Some(t) => Some(clear_threshold_spec(t, self.clear_percent.value())),
                None => None,
            }),
    {
        match self.thresholds.get(kind) {
            Some(t) => Some(self.clear_percent.clear_threshold(t)),
            None => None,
        }
    }

    /// Whether this policy could ever apply to the given scope key.
    pub fn matches_scope(&self, key: &ScopeKey) -> (r: bool)
        ensures
            r == matches_scope_spec(*self, key@),
    {
        if !self.enabled {
            return false;
        }
        if !is_wildcard_tenant(self.tenant.as_str()) && !text_eq(self.tenant.as_str(), key.tenant.as_str()) {
            return false;
        }
        if self.scope_type != key.scope_type {
            return false;
        }
        if self.direction != key.direction {
            return false;
        }
        if let Some(family) = self.address_family {
            if family != key.address_family {
                return false;
            }
        }
        match (&self.selector, &key.scope_id) {
            (PolicySelector::Any, _) => true,
            (PolicySelector::Host { addr }, ScopeId::Host { addr: other }) => *addr == *other,
            (PolicySelector::Network { addr, prefix_len }, ScopeId::Network { addr: other, prefix_len: other_len }) => {
                *addr == *other && *prefix_len == *other_len
            },
            (PolicySelector::Hostgroup { name }, ScopeId::Hostgroup { name: other }) => text_eq(name.as_str(), other.as_str()),
            _ => false,
        }
    }

    /// How specific this policy is, for precedence.
    pub fn specificity(&self) -> (r: u32)
        ensures
            r == specificity_spec(*self),
    {
        let scope = self.scope_type.specificity() as u32 * 1000;
        let selector: u32 = match &self.selector {
            PolicySelector::Host { .. } => 900,
            PolicySelector::Network { prefix_len, .. } => 100 + *prefix_len as u32,
            PolicySelector::Hostgroup { .. } => 50,
            PolicySelector::Any => 0,
        };
        let family: u32 = if self.address_family.is_some() { 1 } else { 0 };
        let tenant: u32 = if is_wildcard_tenant(self.tenant.as_str()) { 0 } else { 1_000_000 };
        tenant + scope + selector + family
    }
}

/// Everything that can be wrong with a policy. Durations are nanoseconds.
#[derive(Debug, Clone, PartialEq, Eq)]
pub enum PolicyError {
    EmptyId,
    IdTooLong { id: String },
    IdCharacter { id: String, ch: char },
    EmptyName { id: String },
    NameTooLong { id: String },
    DescriptionTooLong { id: String },
    EmptyTenant { id: String },
    TooManyLabels { id: String, count: usize },
    LabelTooLong { id: String, key: String },
    ZeroWindow { id: String },
    WindowTooLong { id: String, window: u128 },
    NoThresholds { id: String },
    ZeroThreshold { id: String, metric: &'static str },
    MetricScopeMismatch { id: String, metric: &'static str, scope: &'static str },
    InvalidClearPercent { id: String, percent: u8 },
    TriggerShorterThanWindow { id: String, trigger_for: u128, window: u128 },
    ClearShorterThanWindow { id: String, clear_for: u128, window: u128 },
    TimerTooLong { id: String, field: &'static str, value: u128 },
    ZeroEventUpdateInterval { id: String },
    SelectorScopeMismatch { id: String, scope: &'static str, selector: &'static str },
    InvalidPrefixLength { id: String, addr: IpAddress, prefix_len: u8 },
    PrefixNotOwnedByTenant { id: String, tenant: String, addr: IpAddress, prefix_len: u8 },
    UnsupportedDirection { id: String, direction: &'static str },
    DuplicateId { id: String },
}

/// A [`PolicyError`] with its text as characters.
pub enum PolicyErrorView {
    EmptyId,
    IdTooLong(Seq<char>),
    IdCharacter(Seq<char>, char),
    EmptyName(Seq<char>),
    NameTooLong(Seq<char>),
    DescriptionTooLong(Seq<char>),
    EmptyTenant(Seq<char>),
    TooManyLabels(Seq<char>, usize),
    LabelTooLong(Seq<char>, Seq<char>),
    ZeroWindow(Seq<char>),
    WindowTooLong(Seq<char>, u128),
    NoThresholds(Seq<char>),
    ZeroThreshold(Seq<char>, Seq<char>),
    MetricScopeMismatch(Seq<char>, Seq<char>, Seq<char>),
    InvalidClearPercent(Seq<char>, u8),
    TriggerShorterThanWindow(Seq<char>, u128, u128),
    ClearShorterThanWindow(Seq<char>, u128, u128),
    TimerTooLong(Seq<char>, Seq<char>, u128),
    ZeroEventUpdateInterval(Seq<char>),
    SelectorScopeMismatch(Seq<char>, Seq<char>, Seq<char>),
    InvalidPrefixLength(Seq<char>, IpAddress, u8),
    PrefixNotOwnedByTenant(Seq<char>, Seq<char>, IpAddress, u8),
    UnsupportedDirection(Seq<char>, Seq<char>),
    DuplicateId(Seq<char>),
}

impl View for PolicyError {
    type V = PolicyErrorView;

    open spec fn view(&self) -> PolicyErrorView {
        match self {
            PolicyError::EmptyId => PolicyErrorView::EmptyId,
            PolicyError::IdTooLong { id } => PolicyErrorView::IdTooLong(id@),
            PolicyError::IdCharacter { id, ch } => PolicyErrorView::IdCharacter(id@, *ch),
            PolicyError::EmptyName { id } => PolicyErrorView::EmptyName(id@),
            PolicyError::NameTooLong { id } => PolicyErrorView::NameTooLong(id@),
            PolicyError::DescriptionTooLong { id } => PolicyErrorView::DescriptionTooLong(id@),
            PolicyError::EmptyTenant { id } => PolicyErrorView::EmptyTenant(id@),
            PolicyError::TooManyLabels { id, count } => PolicyErrorView::TooManyLabels(id@, *count),
            PolicyError::LabelTooLong { id, key } => PolicyErrorView::LabelTooLong(id@, key@),
            PolicyError::ZeroWindow { id } => PolicyErrorView::ZeroWindow(id@),
            PolicyError::WindowTooLong { id, window } => PolicyErrorView::WindowTooLong(id@, *window),
            PolicyError::NoThresholds { id } => PolicyErrorView::NoThresholds(id@),
            PolicyError::ZeroThreshold { id, metric } => PolicyErrorView::ZeroThreshold(id@, metric@),
            PolicyError::MetricScopeMismatch { id, metric, scope } => PolicyErrorView::MetricScopeMismatch(id@, metric@, scope@),
            PolicyError::InvalidClearPercent { id, percent } => PolicyErrorView::InvalidClearPercent(id@, *percent),
            PolicyError::TriggerShorterThanWindow { id, trigger_for, window } => PolicyErrorView::TriggerShorterThanWindow(id@, *trigger_for, *window),
            PolicyError::ClearShorterThanWindow { id, clear_for, window } => PolicyErrorView::ClearShorterThanWindow(id@, *clear_for, *window),
            PolicyError::TimerTooLong { id, field, value } => PolicyErrorView::TimerTooLong(id@, field@, *value),
            PolicyError::ZeroEventUpdateInterval { id } => PolicyErrorView::ZeroEventUpdateInterval(id@),
            PolicyError::SelectorScopeMismatch { id, scope, selector } => PolicyErrorView::SelectorScopeMismatch(id@, scope@, selector@),
            PolicyError::InvalidPrefixLength { id, addr, prefix_len } => PolicyErrorView::InvalidPrefixLength(id@, *addr, *prefix_len),
            PolicyError::PrefixNotOwnedByTenant { id, tenant, addr, prefix_len } => PolicyErrorView::PrefixNotOwnedByTenant(id@, tenant@, *addr, *prefix_len),
            PolicyError::UnsupportedDirection { id, direction } => PolicyErrorView::UnsupportedDirection(id@, direction@),
            PolicyError::DuplicateId { id } => PolicyErrorView::DuplicateId(id@),
        }
    }
}

/// The message of a policy error.
pub open spec fn policy_error_text(e: PolicyErrorView) -> Seq<char> {
    let measured = "; a duration shorter than the evaluation resolution can never be measured"@;
    match e {
        PolicyErrorView::EmptyId => "policy id must not be empty"@,
        PolicyErrorView::IdTooLong(id) => "policy id "@ + debug_text(id) + " is longer than "@ + decimal(MAX_POLICY_ID_LEN as nat)
            + " characters"@,
        PolicyErrorView::IdCharacter(id, ch) => "policy id "@ + debug_text(id) + " contains "@ + char_debug_text(ch)
            + "; ids may use only ASCII letters, digits, '-', '_' and '.'"@,
        PolicyErrorView::EmptyName(id) => "policy "@ + debug_text(id) + " has an empty name"@,
        PolicyErrorView::NameTooLong(id) => "policy "@ + debug_text(id) + " has a name longer than "@
            + decimal(MAX_POLICY_NAME_LEN as nat) + " characters"@,
        PolicyErrorView::DescriptionTooLong(id) => "policy "@ + debug_text(id) + " has a description longer than "@
            + decimal(MAX_DESCRIPTION_LEN as nat) + " characters"@,
        PolicyErrorView::EmptyTenant(id) => "policy "@ + debug_text(id) + " has an empty tenant"@,
        PolicyErrorView::TooManyLabels(id, count) => "policy "@ + debug_text(id) + " has "@ + decimal(count as nat)
            + " labels; at most "@ + decimal(MAX_LABELS as nat) + " are allowed"@,
        PolicyErrorView::LabelTooLong(id, key) => "policy "@ + debug_text(id) + " has an oversized label "@ + debug_text(key),
        PolicyErrorView::ZeroWindow(id) => "policy "@ + debug_text(id) + " has a zero-length rate window"@,
        PolicyErrorView::WindowTooLong(id, window) => "policy "@ + debug_text(id) + " has a rate window of "@
            + duration_text(window) + ", longer than the maximum "@ + duration_text(MAX_WINDOW),
        PolicyErrorView::NoThresholds(id) => "policy "@ + debug_text(id) + " declares no thresholds, so it can never trigger"@,
        PolicyErrorView::ZeroThreshold(id, metric) => "policy "@ + debug_text(id) + " sets "@ + metric
            + " to zero; the comparison is >=, so a zero threshold would match idle traffic \u{2014} use 1 to mean 'any at all'"@,
        PolicyErrorView::MetricScopeMismatch(id, metric, scope) => "policy "@ + debug_text(id) + " sets "@ + metric
            + ", which is not meaningful for scope "@ + scope + ": flow counts are per-scope but this metric is not"@,
        PolicyErrorView::InvalidClearPercent(id, percent) => "policy "@ + debug_text(id) + " has a clear percentage of "@
            + decimal(percent as nat) + "; it must be between 1 and 100"@,
        PolicyErrorView::TriggerShorterThanWindow(id, trigger_for, window) => "policy "@ + debug_text(id) + " has triggerFor "@
            + duration_text(trigger_for) + ", shorter than its "@ + duration_text(window) + " window"@ + measured,
        PolicyErrorView::ClearShorterThanWindow(id, clear_for, window) => "policy "@ + debug_text(id) + " has clearFor "@
            + duration_text(clear_for) + ", shorter than its "@ + duration_text(window) + " window"@ + measured,
        PolicyErrorView::TimerTooLong(id, field, value) => "policy "@ + debug_text(id) + " has "@ + field + " of "@
            + duration_text(value) + ", longer than the maximum "@ + duration_text(MAX_TIMER),
        PolicyErrorView::ZeroEventUpdateInterval(id) => "policy "@ + debug_text(id)
            + " has a zero event update interval, which would emit an update on every evaluation"@,
        PolicyErrorView::SelectorScopeMismatch(id, scope, selector) => "policy "@ + debug_text(id) + " targets scope type "@
            + scope + " with a "@ + selector + " selector, which cannot match"@,
        PolicyErrorView::InvalidPrefixLength(id, addr, prefix_len) => "policy "@ + debug_text(id)
            + " has an invalid prefix length /"@ + decimal(prefix_len as nat) + " for "@ + ip_text(addr),
        PolicyErrorView::PrefixNotOwnedByTenant(id, tenant, addr, prefix_len) => "policy "@ + debug_text(id) + " targets "@
            + ip_text(addr) + "/"@ + decimal(prefix_len as nat) + ", which is not covered by any prefix tenant "@
            + debug_text(tenant) + " owns"@,
        PolicyErrorView::UnsupportedDirection(id, direction) => "policy "@ + debug_text(id) + " targets direction "@
            + direction + ", which cannot be detected on"@,
        PolicyErrorView::DuplicateId(id) => "duplicate policy id "@ + debug_text(id),
    }
}

impl PolicyError {
    /// The error's message.
    pub fn to_string(&self) -> (r: String)
        ensures
            r@ == policy_error_text(self@),
    {
        let mut out: Vec<char> = Vec::new();
        match self {
            PolicyError::EmptyId => push_text(&mut out, "policy id must not be empty"),
            PolicyError::IdTooLong { id } => {
                push_text(&mut out, "policy id ");
                push_quoted(&mut out, id.as_str());
                push_text(&mut out, " is longer than ");
                push_decimal(&mut out, MAX_POLICY_ID_LEN as u128);
                push_text(&mut out, " characters");
            },
            PolicyError::IdCharacter { id, ch } => {
                push_text(&mut out, "policy id ");
                push_quoted(&mut out, id.as_str());
                push_text(&mut out, " contains ");
                push_char_debug(&mut out, *ch);
                push_text(&mut out, "; ids may use only ASCII letters, digits, '-', '_' and '.'");
            },
            PolicyError::EmptyName { id } => {
                push_text(&mut out, "policy ");
                push_quoted(&mut out, id.as_str());
                push_text(&mut out, " has an empty name");
            },
            PolicyError::NameTooLong { id } => {
                push_text(&mut out, "policy ");
                push_quoted(&mut out, id.as_str());
                push_text(&mut out, " has a name longer than ");
                push_decimal(&mut out, MAX_POLICY_NAME_LEN as u128);
                push_text(&mut out, " characters");
            },
            PolicyError::DescriptionTooLong { id } => {
                push_text(&mut out, "policy ");
                push_quoted(&mut out, id.as_str());
                push_text(&mut out, " has a description longer than ");
                push_decimal(&mut out, MAX_DESCRIPTION_LEN as u128);
                push_text(&mut out, " characters");
            },
            PolicyError::EmptyTenant { id } => {
                push_text(&mut out, "policy ");
                push_quoted(&mut out, id.as_str());
                push_text(&mut out, " has an empty tenant");
            },
            PolicyError::TooManyLabels { id, count } => {
                push_text(&mut out, "policy ");
                push_quoted(&mut out, id.as_str());
                push_text(&mut out, " has ");
                push_decimal(&mut out, *count as u128);
                push_text(&mut out, " labels; at most ");
                push_decimal(&mut out, MAX_LABELS as u128);
                push_text(&mut out, " are allowed");
            },
            PolicyError::LabelTooLong { id, key } => {
                push_text(&mut out, "policy ");
                push_quoted(&mut out, id.as_str());
                push_text(&mut out, " has an oversized label ");
                push_quoted(&mut out, key.as_str());
            },
            PolicyError::ZeroWindow { id } => {
                push_text(&mut out, "policy ");
                push_quoted(&mut out, id.as_str());
                push_text(&mut out, " has a zero-length rate window");
            },
            PolicyError::WindowTooLong { id, window } => {
                push_text(&mut out, "policy ");
                push_quoted(&mut out, id.as_str());
                push_text(&mut out, " has a rate window of ");
                push_duration(&mut out, *window);
                push_text(&mut out, ", longer than the maximum ");
                push_duration(&mut out, MAX_WINDOW);
            },
            PolicyError::NoThresholds { id } => {
                push_text(&mut out, "policy ");
                push_quoted(&mut out, id.as_str());
                push_text(&mut out, " declares no thresholds, so it can never trigger");
            },
            PolicyError::ZeroThreshold { id, metric } => {
                push_text(&mut out, "policy ");
                push_quoted(&mut out, id.as_str());
                push_text(&mut out, " sets ");
                push_text(&mut out, metric);
                push_text(&mut out, " to zero; the comparison is >=, so a zero threshold would match idle traffic \u{2014} use 1 to mean 'any at all'");
            },
            PolicyError::MetricScopeMismatch { id, metric, scope } => {
                push_text(&mut out, "policy ");
                push_quoted(&mut out, id.as_str());
                push_text(&mut out, " sets ");
                push_text(&mut out, metric);
                push_text(&mut out, ", which is not meaningful for scope ");
                push_text(&mut out, scope);
                push_text(&mut out, ": flow counts are per-scope but this metric is not");
            },
            PolicyError::InvalidClearPercent { id, percent } => {
                push_text(&mut out, "policy ");
                push_quoted(&mut out, id.as_str());
                push_text(&mut out, " has a clear percentage of ");
                push_decimal(&mut out, *percent as u128);
                push_text(&mut out, "; it must be between 1 and 100");
            },
            PolicyError::TriggerShorterThanWindow { id, trigger_for, window } => {
                push_text(&mut out, "policy ");
                push_quoted(&mut out, id.as_str());
                push_text(&mut out, " has triggerFor ");
                push_duration(&mut out, *trigger_for);
                push_text(&mut out, ", shorter than its ");
                push_duration(&mut out, *window);
                push_text(&mut out, " window");
                push_text(&mut out, "; a duration shorter than the evaluation resolution can never be measured");
            },
            PolicyError::ClearShorterThanWindow { id, clear_for, window } => {
                push_text(&mut out, "policy ");
                push_quoted(&mut out, id.as_str());
                push_text(&mut out, " has clearFor ");
                push_duration(&mut out, *clear_for);
                push_text(&mut out, ", shorter than its ");
                push_duration(&mut out, *window);
                push_text(&mut out, " window");
                push_text(&mut out, "; a duration shorter than the evaluation resolution can never be measured");
            },
            PolicyError::TimerTooLong { id, field, value } => {
                push_text(&mut out, "policy ");
                push_quoted(&mut out, id.as_str());
                push_text(&mut out, " has ");
                push_text(&mut out, field);
                push_text(&mut out, " of ");
                push_duration(&mut out, *value);
                push_text(&mut out, ", longer than the maximum ");
                push_duration(&mut out, MAX_TIMER);
            },
            PolicyError::ZeroEventUpdateInterval { id } => {
                push_text(&mut out, "policy ");
                push_quoted(&mut out, id.as_str());
                push_text(&mut out, " has a zero event update interval, which would emit an update on every evaluation");
            },
            PolicyError::SelectorScopeMismatch { id, scope, selector } => {
                push_text(&mut out, "policy ");
                push_quoted(&mut out, id.as_str());
                push_text(&mut out, " targets scope type ");
                push_text(&mut out, scope);
                push_text(&mut out, " with a ");
                push_text(&mut out, selector);
                push_text(&mut out, " selector, which cannot match");
            },
            PolicyError::InvalidPrefixLength { id, addr, prefix_len } => {
                push_text(&mut out, "policy ");
                push_quoted(&mut out, id.as_str());
                push_text(&mut out, " has an invalid prefix length /");
                push_decimal(&mut out, *prefix_len as u128);
                push_text(&mut out, " for ");
                push_ip(&mut out, *addr);
            },
            PolicyError::PrefixNotOwnedByTenant { id, tenant, addr, prefix_len } => {
                push_text(&mut out, "policy ");
                push_quoted(&mut out, id.as_str());
                push_text(&mut out, " targets ");
                push_ip(&mut out, *addr);
                push_text(&mut out, "/");
                push_decimal(&mut out, *prefix_len as u128);
                push_text(&mut out, ", which is not covered by any prefix tenant ");
                push_quoted(&mut out, tenant.as_str());
                push_text(&mut out, " owns");
            },
            PolicyError::UnsupportedDirection { id, direction } => {
                push_text(&mut out, "policy ");
                push_quoted(&mut out, id.as_str());
                push_text(&mut out, " targets direction ");
                push_text(&mut out, direction);
                push_text(&mut out, ", which cannot be detected on");
            },
            PolicyError::DuplicateId { id } => {
                push_text(&mut out, "duplicate policy id ");
                push_quoted(&mut out, id.as_str());
            },
        }
        string_from_chars(out)
    }
}

/// An unvalidated policy, as read from configuration.
#[derive(Debug, Clone, PartialEq, Eq)]
pub struct PolicyDraft {
    pub id: String,
    pub name: String,
    pub description: Option<String>,
    pub enabled: bool,
    pub tenant: String,
    pub scope_type: ScopeType,
    pub selector: PolicySelector,
    pub address_family: Option<AddressFamily>,
    pub direction: TrafficDirection,
    pub window: u128,
    pub thresholds: Thresholds,
    pub clear_percent: u8,
    pub trigger_for: u128,
    pub clear_for: u128,
    pub cooldown: u128,
    pub hold_down: u128,
    pub event_update_interval: u128,
    pub severity: Severity,
    pub execution_mode: ExecutionMode,
    pub priority: i32,
    /// Labels, in key order.
    pub labels: Vec<(String, String)>,
    pub version: u32,
}

/// A character allowed in a policy id.
pub open spec fn id_char_ok(c: char) -> bool {
    is_alnum(c) || c == '-' || c == '_' || c == '.'
}

/// The first character of `s` not allowed in a policy id.
pub open spec fn first_bad_id_char(s: Seq<char>) -> Option<char>
    decreases s.len(),
{
    if s.len() == 0 {
        None
    } else if !id_char_ok(s[0]) {
        Some(s[0])
    } else {
        first_bad_id_char(s.drop_first())
    }
}

/// What is wrong with a policy id, if anything.
pub open spec fn id_problem(id: Seq<char>) -> Option<PolicyErrorView> {
    if id.len() == 0 {
        Some(PolicyErrorView::EmptyId)
    } else if id.len() > MAX_POLICY_ID_LEN {
        Some(PolicyErrorView::IdTooLong(id))
    } else {
        match first_bad_id_char(id) {
            Some(ch) => Some(PolicyErrorView::IdCharacter(id, ch)),
            None => None,
        }
    }
}

/// The key of the first label whose key or value is oversized.
pub open spec fn first_long_label(labels: Seq<(Seq<char>, Seq<char>)>) -> Option<Seq<char>>
    decreases labels.len(),
{
    if labels.len() == 0 {
        None
    } else if labels[0].0.len() > MAX_LABEL_KEY_LEN || labels[0].1.len() > MAX_LABEL_VALUE_LEN {
        Some(labels[0].0)
    } else {
        first_long_label(labels.drop_first())
    }
}

/// The first metric, in iteration order, whose threshold is zero.
pub open spec fn first_zero_threshold(t: Seq<(MetricKind, u64)>) -> Option<MetricKind>
    decreases t.len(),
{
    if t.len() == 0 {
        None
    } else if t[0].1 == 0 {
        Some(t[0].0)
    } else {
        first_zero_threshold(t.drop_first())
    }
}

/// Whether a selector can ever match scopes of `scope_type`.
pub open spec fn selector_compatible(scope_type: ScopeType, sel: PolicySelectorView) -> bool {
    match (scope_type, sel) {
        (_, PolicySelectorView::Any) => true,
        (ScopeType::Host, PolicySelectorView::Host(_)) => true,
        (ScopeType::Prefix, PolicySelectorView::Network(_, _)) => true,
        (ScopeType::Slash24, PolicySelectorView::Network(_, len)) => len == 24,
        (ScopeType::HostgroupTotal, PolicySelectorView::Hostgroup(_)) => true,
        _ => false,
    }
}

pub open spec fn selector_kind_name(sel: PolicySelectorView) -> Seq<char> {
    match sel {
        PolicySelectorView::Host(_) => "host"@,
        PolicySelectorView::Network(_, _) => "network"@,
        PolicySelectorView::Hostgroup(_) => "hostgroup"@,
        PolicySelectorView::Any => "any"@,
    }
}

/// The address range a selector targets, when it targets one: a network
/// as written, a host as a full-length prefix.
pub open spec fn selector_range(sel: PolicySelectorView) -> Option<(IpAddress, u8)> {
    match sel {
        PolicySelectorView::Network(a, len) => Some((a, len)),
        PolicySelectorView::Host(a) => Some((a, family_bits(a) as u8)),
        _ => None,
    }
}

pub open spec fn labels_view(labels: Seq<(String, String)>) -> Seq<(Seq<char>, Seq<char>)> {
    labels.map_values(|l: (String, String)| (l.0@, l.1@))
}

/// Label keys strictly ascend in code-point order, so no key occurs twice:
/// labels form a map from key to value, kept sorted.
pub open spec fn labels_in_key_order(labels: Seq<(Seq<char>, Seq<char>)>) -> bool {
    forall|i: int, j: int|
        0 <= i < j < labels.len() ==> chars_order(#[trigger] labels[i].0, #[trigger] labels[j].0) == KeyOrder::Before
}

/// The first rule `d` breaks, checked in this order: id, name,
/// description, tenant, labels, window, thresholds, clear percentage,
/// trigger and clear durations against the window, timer limits, the
/// update interval, selector against scope type, prefix length,
/// direction, and prefix ownership (skipped when no prefixes are
/// configured or the tenant is the wildcard).
pub open spec fn validate_spec(d: PolicyDraft, owned: Seq<(Seq<char>, IpAddress, u8)>) -> Result<(), PolicyErrorView> {
    let id = d.id@;
    let labels = labels_view(d.labels@);
    if id_problem(id) is Some {
        Err(id_problem(id).unwrap())
    } else if is_blank_spec(d.name@) {
        Err(PolicyErrorView::EmptyName(id))
    } else if d.name@.len() > MAX_POLICY_NAME_LEN {
        Err(PolicyErrorView::NameTooLong(id))
    } else if d.description matches Some(x) && x@.len() > MAX_DESCRIPTION_LEN {
        Err(PolicyErrorView::DescriptionTooLong(id))
    } else if is_blank_spec(d.tenant@) {
        Err(PolicyErrorView::EmptyTenant(id))
    } else if labels.len() > MAX_LABELS {
        Err(PolicyErrorView::TooManyLabels(id, labels.len() as usize))
    } else if first_long_label(labels) is Some {
        Err(PolicyErrorView::LabelTooLong(id, first_long_label(labels).unwrap()))
    } else if d.window == 0 {
        Err(PolicyErrorView::ZeroWindow(id))
    } else if d.window > MAX_WINDOW {
        Err(PolicyErrorView::WindowTooLong(id, d.window))
    } else if d.thresholds@.len() == 0 {
        Err(PolicyErrorView::NoThresholds(id))
    } else if first_zero_threshold(d.thresholds@) is Some {
        Err(PolicyErrorView::ZeroThreshold(id, first_zero_threshold(d.thresholds@).unwrap().name()))
    } else if !(1 <= d.clear_percent <= 100) {
        Err(PolicyErrorView::InvalidClearPercent(id, d.clear_percent))
    } else if d.trigger_for < d.window {
        Err(PolicyErrorView::TriggerShorterThanWindow(id, d.trigger_for, d.window))
    } else if d.clear_for < d.window {
        Err(PolicyErrorView::ClearShorterThanWindow(id, d.clear_for, d.window))
    } else if d.trigger_for > MAX_TIMER {
        Err(PolicyErrorView::TimerTooLong(id, "triggerFor"@, d.trigger_for))
    } else if d.clear_for > MAX_TIMER {
        Err(PolicyErrorView::TimerTooLong(id, "clearFor"@, d.clear_for))
    } else if d.cooldown > MAX_TIMER {
        Err(PolicyErrorView::TimerTooLong(id, "cooldown"@, d.cooldown))
    } else if d.hold_down > MAX_TIMER {
        Err(PolicyErrorView::TimerTooLong(id, "holdDown"@, d.hold_down))
    } else if d.event_update_interval > MAX_TIMER {
        Err(PolicyErrorView::TimerTooLong(id, "eventUpdateInterval"@, d.event_update_interval))
    } else if d.event_update_interval == 0 {
        Err(PolicyErrorView::ZeroEventUpdateInterval(id))
    } else if !selector_compatible(d.scope_type, d.selector@) {
        Err(PolicyErrorView::SelectorScopeMismatch(id, d.scope_type.name(), selector_kind_name(d.selector@)))
    } else if d.selector@ matches PolicySelectorView::Network(a, len) && len > family_bits(a) {
        Err(PolicyErrorView::InvalidPrefixLength(id, d.selector@->Network_0, d.selector@->Network_1))
    } else if d.direction == TrafficDirection::Unknown {
        Err(PolicyErrorView::UnsupportedDirection(id, "unknown"@))
    } else if owned.len() != 0 && d.tenant@ != wildcard_tenant() && selector_range(d.selector@) is Some
        && !covers_spec(owned, d.tenant@, selector_range(d.selector@).unwrap().0, selector_range(d.selector@).unwrap().1) {
        Err(PolicyErrorView::PrefixNotOwnedByTenant(id, d.tenant@, selector_range(d.selector@).unwrap().0, selector_range(d.selector@).unwrap().1))
    } else {
        Ok(())
    }
}

/// The policy carries every field of the draft unchanged, with the
/// clear percentage as a checked [`ClearPercent`].
pub open spec fn policy_from_draft(p: DetectionPolicy, d: PolicyDraft) -> bool {
    &&& p.id@ == d.id@
    &&& p.name@ == d.name@
    &&& (p.description is Some <==> d.description is Some)
    &&& (p.description matches Some(x) ==> x@ == d.description.unwrap()@)
    &&& p.enabled == d.enabled
    &&& p.tenant@ == d.tenant@
    &&& p.scope_type == d.scope_type
    &&& p.selector@ == d.selector@
    &&& p.address_family == d.address_family
    &&& p.direction == d.direction
    &&& p.window == d.window
    &&& p.thresholds@ == d.thresholds@
    &&& p.clear_percent.value() == d.clear_percent
    &&& p.trigger_for == d.trigger_for
    &&& p.clear_for == d.clear_for
    &&& p.cooldown == d.cooldown
    &&& p.hold_down == d.hold_down
    &&& p.event_update_interval == d.event_update_interval
    &&& p.severity == d.severity
    &&& p.execution_mode == d.execution_mode
    &&& p.priority == d.priority
    &&& labels_view(p.labels@) == labels_view(d.labels@)
    &&& p.version == d.version
}

fn check_id(id: &String) -> (r: Option<PolicyError>)
    ensures
        r is Some <==> id_problem(id@) is Some,
        r matches Some(e) ==> e@ == id_problem(id@).unwrap(),
{
    let chars = chars_of(id.as_str());
    if chars.len() == 0 {
        return Some(PolicyError::EmptyId);
    }
    if chars.len() > MAX_POLICY_ID_LEN {
        return Some(PolicyError::IdTooLong { id: id.clone() });
    }
    let mut i: usize = 0;
    assert(id@.subrange(0, id@.len() as int) =~= id@);
    while i < chars.len()
        invariant
            chars@ == id@,
            0 < id@.len() <= MAX_POLICY_ID_LEN,
            i <= chars.len(),
            first_bad_id_char(id@) == first_bad_id_char(id@.subrange(i as int, id@.len() as int)),
        decreases chars.len() - i,
    {
        let c = chars[i];
        let ok = ('0' <= c && c <= '9') || ('a' <= c && c <= 'z') || ('A' <= c && c <= 'Z') || c == '-' || c == '_' || c == '.';
        let ghost rest = id@.subrange(i as int, id@.len() as int);
        assert(rest[0] == c);
        if !ok {
            assert(!id_char_ok(c));
            assert(first_bad_id_char(rest) == Some(c));
            assert(first_bad_id_char(id@) == Some(c));
            assert(id_problem(id@) == Some(PolicyErrorView::IdCharacter(id@, c)));
            let idc = id.clone();
            assert(idc@ == id@);
            return Some(PolicyError::IdCharacter { id: idc, ch: c });
        }
        assert(rest.drop_first() =~= id@.subrange(i + 1, id@.len() as int));
        i = i + 1;
    }
    assert(id@.subrange(i as int, id@.len() as int) =~= Seq::<char>::empty());
    None
}

fn check_labels(labels: &Vec<(String, String)>) -> (r: Option<String>)
    ensures
        r is Some <==> first_long_label(labels_view(labels@)) is Some,
        r matches Some(k) ==> k@ == first_long_label(labels_view(labels@)).unwrap(),
{
    let ghost all = labels_view(labels@);
    let mut i: usize = 0;
    assert(all.subrange(0, all.len() as int) =~= all);
    while i < labels.len()
        invariant
            all == labels_view(labels@),
            i <= labels.len(),
            first_long_label(all) == first_long_label(all.subrange(i as int, all.len() as int)),
        decreases labels.len() - i,
    {
        let ghost rest = all.subrange(i as int, all.len() as int);
        assert(rest[0] == (labels@[i as int].0@, labels@[i as int].1@));
        let klen = labels[i].0.as_str().unicode_len();
        let vlen = labels[i].1.as_str().unicode_len();
        if klen > MAX_LABEL_KEY_LEN || vlen > MAX_LABEL_VALUE_LEN {
            return Some(labels[i].0.clone());
        }
        assert(rest.drop_first() =~= all.subrange(i + 1, all.len() as int));
        i = i + 1;
    }
    assert(all.subrange(i as int, all.len() as int) =~= Seq::<(Seq<char>, Seq<char>)>::empty());
    None
}

fn check_thresholds(t: &Vec<(MetricKind, u64)>) -> (r: Option<MetricKind>)
    ensures
        r == first_zero_threshold(t@),
{
    let mut i: usize = 0;
    assert(t@.subrange(0, t@.len() as int) =~= t@);
    while i < t.len()
        invariant
            i <= t.len(),
            first_zero_threshold(t@) == first_zero_threshold(t@.subrange(i as int, t@.len() as int)),
        decreases t.len() - i,
    {
        let ghost rest = t@.subrange(i as int, t@.len() as int);
        assert(rest[0] == t@[i as int]);
        if t[i].1 == 0 {
            return Some(t[i].0);
        }
        assert(rest.drop_first() =~= t@.subrange(i + 1, t@.len() as int));
        i = i + 1;
    }
    assert(t@.subrange(i as int, t@.len() as int) =~= Seq::<(MetricKind, u64)>::empty());
    None
}

fn selector_kind(sel: &PolicySelector) -> (r: &'static str)
    ensures
        r@ == selector_kind_name(sel@),
{
    match sel {
        PolicySelector::Host { .. } => "host",
        PolicySelector::Network { .. } => "network",
        PolicySelector::Hostgroup { .. } => "hostgroup",
        PolicySelector::Any => "any",
    }
}

fn check_selector(id: &String, scope_type: ScopeType, sel: &PolicySelector) -> (r: Option<PolicyError>)
    ensures
        r is Some <==> (!selector_compatible(scope_type, sel@) || (sel@ matches PolicySelectorView::Network(a, len) && len > family_bits(a))),
        r matches Some(e) ==> e@ == (if !selector_compatible(scope_type, sel@) {
            PolicyErrorView::SelectorScopeMismatch(id@, scope_type.name(), selector_kind_name(sel@))
        } else {
            PolicyErrorView::InvalidPrefixLength(id@, sel@->Network_0, sel@->Network_1)
        }),
{
    let compatible = match (scope_type, sel) {
        (_, PolicySelector::Any) => true,
        (ScopeType::Host, PolicySelector::Host { .. }) => true,
        (ScopeType::Prefix, PolicySelector::Network { .. }) => true,
        (ScopeType::Slash24, PolicySelector::Network { prefix_len, .. }) => *prefix_len == 24,
        (ScopeType::HostgroupTotal, PolicySelector::Hostgroup { .. }) => true,
        _ => false,
    };
    if !compatible {
        return Some(PolicyError::SelectorScopeMismatch {
            id: id.clone(),
            scope: scope_type.as_str(),
            selector: selector_kind(sel),
        });
    }
    if let PolicySelector::Network { addr, prefix_len } = sel {
        if *prefix_len > addr.max_prefix_len() {
            return Some(PolicyError::InvalidPrefixLength { id: id.clone(), addr: *addr, prefix_len: *prefix_len });
        }
    }
    None
}

fn check_ownership(id: &String, tenant: &String, sel: &PolicySelector, owned: &TenantPrefixes) -> (r: Option<PolicyError>)
    ensures
        r is Some <==> (owned@.len() != 0 && tenant@ != wildcard_tenant() && selector_range(sel@) is Some
            && !covers_spec(owned@, tenant@, selector_range(sel@).unwrap().0, selector_range(sel@).unwrap().1)),
        r matches Some(e) ==> e@ == PolicyErrorView::PrefixNotOwnedByTenant(id@, tenant@, selector_range(sel@).unwrap().0, selector_range(sel@).unwrap().1),
{
    if owned.is_empty() || is_wildcard_tenant(tenant.as_str()) {
        return None;
    }
    let (addr, prefix_len) = match sel {
        PolicySelector::Network { addr, prefix_len } => (*addr, *prefix_len),
        PolicySelector::Host { addr } => (*addr, addr.max_prefix_len()),
        _ => {
            return None;
        },
    };
    if owned.covers(tenant.as_str(), addr, prefix_len) {
        None
    } else {
        Some(PolicyError::PrefixNotOwnedByTenant { id: id.clone(), tenant: tenant.clone(), addr, prefix_len })
    }
}

impl PolicyDraft {
    /// Checks every rule, returning the first violation found, or the
    /// validated policy. `tenant_prefixes` empty skips the ownership
    /// check.
    pub fn validate(self, tenant_prefixes: &TenantPrefixes) -> (r: Result<DetectionPolicy, PolicyError>)
        requires
            labels_in_key_order(labels_view(self.labels@)),
        ensures
            r is Ok <==> validate_spec(self, tenant_prefixes@) is Ok,
            r matches Err(e) ==> Err::<(), PolicyErrorView>(e@) == validate_spec(self, tenant_prefixes@),
            r matches Ok(p) ==> policy_from_draft(p, self),
            r matches Ok(p) ==> labels_in_key_order(labels_view(p.labels@)),
    {
        let ghost d = self;
        if let Some(e) = check_id(&self.id) {
            return Err(e);
        }
        if is_blank(self.name.as_str()) {
            return Err(PolicyError::EmptyName { id: self.id });
        }
        if self.name.as_str().unicode_len() > MAX_POLICY_NAME_LEN {
            return Err(PolicyError::NameTooLong { id: self.id });
        }
        if let Some(x) = &self.description {
            if x.as_str().unicode_len() > MAX_DESCRIPTION_LEN {
                return Err(PolicyError::DescriptionTooLong { id: self.id });
            }
        }
        if is_blank(self.tenant.as_str()) {
            return Err(PolicyError::EmptyTenant { id: self.id });
        }
        if self.labels.len() > MAX_LABELS {
            assert(labels_view(self.labels@).len() == self.labels@.len());
            return Err(PolicyError::TooManyLabels { id: self.id, count: self.labels.len() });
        }
        if let Some(key) = check_labels(&self.labels) {
            return Err(PolicyError::LabelTooLong { id: self.id, key });
        }
        if self.window == 0 {
            return Err(PolicyError::ZeroWindow { id: self.id });
        }
        if self.window > MAX_WINDOW {
            return Err(PolicyError::WindowTooLong { id: self.id, window: self.window });
        }
        if self.thresholds.is_empty() {
            return Err(PolicyError::NoThresholds { id: self.id });
        }
        let entries = self.thresholds.iter();
        if let Some(metric) = check_thresholds(&entries) {
            return Err(PolicyError::ZeroThreshold { id: self.id, metric: metric.as_str() });
        }
        let clear_percent = match ClearPercent::new(self.clear_percent) {
            Some(c) => c,
            None => {
                return Err(PolicyError::InvalidClearPercent { id: self.id, percent: self.clear_percent });
            },
        };
        if self.trigger_for < self.window {
            return Err(PolicyError::TriggerShorterThanWindow { id: self.id, trigger_for: self.trigger_for, window: self.window });
        }
        if self.clear_for < self.window {
            return Err(PolicyError::ClearShorterThanWindow { id: self.id, clear_for: self.clear_for, window: self.window });
        }
        if self.trigger_for > MAX_TIMER {
            return Err(PolicyError::TimerTooLong { id: self.id, field: "triggerFor", value: self.trigger_for });
        }
        if self.clear_for > MAX_TIMER {
            return Err(PolicyError::TimerTooLong { id: self.id, field: "clearFor", value: self.clear_for });
        }
        if self.cooldown > MAX_TIMER {
            return Err(PolicyError::TimerTooLong { id: self.id, field: "cooldown", value: self.cooldown });
        }
        if self.hold_down > MAX_TIMER {
            return Err(PolicyError::TimerTooLong { id: self.id, field: "holdDown", value: self.hold_down });
        }
        if self.event_update_interval > MAX_TIMER {
            return Err(PolicyError::TimerTooLong { id: self.id, field: "eventUpdateInterval", value: self.event_update_interval });
        }
        if self.event_update_interval == 0 {
            return Err(PolicyError::ZeroEventUpdateInterval { id: self.id });
        }
        if let Some(e) = check_selector(&self.id, self.scope_type, &self.selector) {
            return Err(e);
        }
        if self.direction == TrafficDirection::Unknown {
            return Err(PolicyError::UnsupportedDirection { id: self.id, direction: self.direction.as_str() });
        }
        if let Some(e) = check_ownership(&self.id, &self.tenant, &self.selector, tenant_prefixes) {
            return Err(e);
        }
        Ok(DetectionPolicy {
            id: self.id,
            name: self.name,
            description: self.description,
            enabled: self.enabled,
            tenant: self.tenant,
            scope_type: self.scope_type,
            selector: self.selector,
            address_family: self.address_family,
            direction: self.direction,
            window: self.window,
            thresholds: self.thresholds,
            clear_percent,
            trigger_for: self.trigger_for,
            clear_for: self.clear_for,
            cooldown: self.cooldown,
            hold_down: self.hold_down,
            event_update_interval: self.event_update_interval,
            severity: self.severity,
            execution_mode: self.execution_mode,
            priority: self.priority,
            labels: self.labels,
            version: self.version,
        })
    }
}

} // verus!
