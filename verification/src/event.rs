//! Detection events: what leaves the engine.
//!
//! An event is self-contained: the policy id and version, the thresholds
//! compared against and the completeness flags travel on it. Three
//! identifiers do three jobs: `event_id` is unique per event,
//! `detection_id` is stable from the start to the end of one detection,
//! and `dedup_key` is what an at-least-once transport collapses on.
//! Times are nanoseconds: monotonic ones on the caller's scale, wall
//! ones since the Unix epoch.

use std::hash::{BuildHasher, Hash, Hasher};
use vstd::prelude::*;

verus! {

use crate::evaluate::{MatchedReason, SkippedMetric};
use crate::input::{
    scope_id_text, AddressFamily, DataCompleteness, DetectionSnapshot, MetricRates, SamplingStatus, ScopeId,
    ScopeIdView, ScopeKeyView, ScopeType, TrafficDirection,
};
use crate::policy::{DetectionPolicy, ExecutionMode, Severity};
use crate::seed::fresh_seed;
use crate::render::{
    decimal, hex_fixed, lemma_decimal_injective, lemma_hex_injective, lemma_hex_len, lemma_u64_below_pow16,
    push_decimal, push_hex_fixed, push_text, string_from_chars,
};
use crate::state::{elapsed, DetectionState, Signal, StateTransition, TransitionReason, TransitionView};

/// Bumped when a field changes meaning or disappears; stamped on every
/// event.
pub const EVENT_SCHEMA_VERSION: u32 = 1;

/// Where an event sits in a detection's life.
#[derive(Debug, Clone, Copy, PartialEq, Eq, Hash, PartialOrd, Ord, Structural)]
pub enum EventKind {
    Started,
    Updated,
    Ended,
}

impl EventKind {
    pub open spec fn name(self) -> Seq<char> {
        match self {
            EventKind::Started => "started"@,
            EventKind::Updated => "updated"@,
            EventKind::Ended => "ended"@,
        }
    }

    pub fn as_str(&self) -> (r: &'static str)
        ensures
            r@ == self.name(),
    {
        match self {
            EventKind::Started => "started",
            EventKind::Updated => "updated",
            EventKind::Ended => "ended",
        }
    }
}

/// The event kind of a state-machine signal.
pub open spec fn kind_of(signal: Signal) -> EventKind {
    match signal {
        Signal::Started => EventKind::Started,
        Signal::Updated => EventKind::Updated,
        Signal::Ended => EventKind::Ended,
    }
}

impl From<Signal> for EventKind {
    fn from(signal: Signal) -> (r: EventKind) {
        match signal {
            Signal::Started => EventKind::Started,
            Signal::Updated => EventKind::Updated,
            Signal::Ended => EventKind::Ended,
        }
    }
}

impl vstd::std_specs::convert::FromSpecImpl<Signal> for EventKind {
    open spec fn obeys_from_spec() -> bool {
        true
    }

    open spec fn from_spec(signal: Signal) -> EventKind {
        kind_of(signal)
    }
}

/// What the engine was permitted to do about an event: never more than
/// record or publish it.
#[derive(Debug, Clone, Copy, PartialEq, Eq, Hash, Structural)]
pub enum ActionTaken {
    /// Recorded only; not published to any sink.
    Observed,
    /// Published as an alert. No mitigation was requested or performed.
    Alerted,
    /// Published, naming the mitigation a later phase would have
    /// requested. Nothing was requested.
    DryRun,
}

/// The action an execution mode produces; `Disabled` produces no event.
pub open spec fn action_for(mode: ExecutionMode) -> Option<ActionTaken> {
    match mode {
        ExecutionMode::Disabled => None,
        ExecutionMode::Observe => Some(ActionTaken::Observed),
        ExecutionMode::AlertOnly => Some(ActionTaken::Alerted),
        ExecutionMode::DryRun => Some(ActionTaken::DryRun),
    }
}

impl ActionTaken {
    pub open spec fn name(self) -> Seq<char> {
        match self {
            ActionTaken::Observed => "observed"@,
            ActionTaken::Alerted => "alerted"@,
            ActionTaken::DryRun => "dryRun"@,
        }
    }

    pub fn as_str(&self) -> (r: &'static str)
        ensures
            r@ == self.name(),
    {
        match self {
            ActionTaken::Observed => "observed",
            ActionTaken::Alerted => "alerted",
            ActionTaken::DryRun => "dryRun",
        }
    }

    /// The action a given execution mode produces.
    pub fn for_mode(mode: ExecutionMode) -> (r: Option<ActionTaken>)
        ensures
            r == action_for(mode),
    {
        match mode {
            ExecutionMode::Disabled => None,
            ExecutionMode::Observe => Some(ActionTaken::Observed),
            ExecutionMode::AlertOnly => Some(ActionTaken::Alerted),
            ExecutionMode::DryRun => Some(ActionTaken::DryRun),
        }
    }

    /// Whether anything was actually done to the traffic: never, for
    /// every action there is.
    pub fn executed(&self) -> (r: bool)
        ensures
            !r,
    {
        match self {
            ActionTaken::Observed => false,
            ActionTaken::Alerted => false,
            ActionTaken::DryRun => false,
        }
    }
}

/// The scope an event is about, flattened.
#[derive(Debug, Clone, PartialEq, Eq)]
pub struct EventTarget {
    pub tenant: String,
    pub scope_type: ScopeType,
    pub scope_id: ScopeId,
    /// Text form of `scope_id`.
    pub display: String,
    pub direction: TrafficDirection,
    pub address_family: AddressFamily,
}

/// The key an event target describes.
pub open spec fn target_key(t: EventTarget) -> ScopeKeyView {
    ScopeKeyView {
        tenant: t.tenant@,
        scope_type: t.scope_type,
        scope_id: t.scope_id@,
        direction: t.direction,
        address_family: t.address_family,
    }
}

/// The target of the scope `k`, with its display text.
pub open spec fn target_of(t: EventTarget, k: ScopeKeyView) -> bool {
    &&& target_key(t) == k
    &&& t.display@ == scope_id_text(k.scope_id)
}

/// What the state table knows of one open detection when it signals.
#[derive(Debug, Clone, PartialEq, Eq)]
pub struct DetectionContext {
    /// Monotonic instant the detection opened.
    pub started_at: u128,
    /// Wall clock when it opened.
    pub started_wall: i128,
    /// Zero on the start event, incrementing for each further event.
    pub sequence: u64,
    /// The worst value seen for each crossed metric.
    pub peak: Vec<MatchedReason>,
    pub snapshots_in_detection: u64,
}

/// One signal with the move that caused it and the detection it is
/// about.
#[derive(Debug, Clone, PartialEq, Eq)]
pub struct SignalRecord {
    pub signal: Signal,
    pub transition: StateTransition,
    pub detection: DetectionContext,
}

/// One detection event.
#[derive(Debug, Clone, PartialEq, Eq)]
pub struct DetectionEvent {
    pub schema_version: u32,
    pub event_id: String,
    pub detection_id: String,
    /// Zero on the start event, incrementing for each further event of
    /// the same detection.
    pub sequence: u64,
    pub kind: EventKind,
    pub dedup_key: String,
    pub policy_id: String,
    pub policy_name: String,
    pub policy_version: u32,
    pub severity: Severity,
    pub execution_mode: ExecutionMode,
    pub action: ActionTaken,
    /// Labels, in key order.
    pub labels: Vec<(String, String)>,
    pub target: EventTarget,
    pub previous_state: DetectionState,
    pub state: DetectionState,
    pub reason: TransitionReason,
    /// Milliseconds since the Unix epoch, for display only.
    pub detected_at_ms: u64,
    pub observed_at_ms: u64,
    /// How long the detection had been open; zero on the start event.
    pub duration_ms: u64,
    /// The rate window these figures were measured over.
    pub window_ms: u64,
    /// Thresholds crossed at this instant.
    pub matched: Vec<MatchedReason>,
    /// The worst value seen for each crossed metric across the
    /// detection.
    pub peak: Vec<MatchedReason>,
    /// Thresholds that could not be evaluated, and why.
    pub skipped: Vec<SkippedMetric>,
    pub rates: MetricRates,
    pub completeness: DataCompleteness,
    pub sampling: SamplingStatus,
    pub flows_observed: u64,
    pub exporters_observed: u32,
    pub snapshots_in_detection: u64,
    /// Whether anything was done to the traffic: always `false`.
    pub executed: bool,
    /// One line, safe for a subject header.
    pub summary: String,
}

/// `b` is a copy of `a`: every field holds the same value.
pub open spec fn same_event(a: DetectionEvent, b: DetectionEvent) -> bool {
    &&& a.schema_version == b.schema_version
    &&& a.event_id@ == b.event_id@
    &&& a.detection_id@ == b.detection_id@
    &&& a.sequence == b.sequence
    &&& a.kind == b.kind
    &&& a.dedup_key@ == b.dedup_key@
    &&& a.policy_id@ == b.policy_id@
    &&& a.policy_name@ == b.policy_name@
    &&& a.policy_version == b.policy_version
    &&& a.severity == b.severity
    &&& a.execution_mode == b.execution_mode
    &&& a.action == b.action
    &&& labels_text(a.labels@) == labels_text(b.labels@)
    &&& target_key(a.target) == target_key(b.target)
    &&& a.target.display@ == b.target.display@
    &&& a.previous_state == b.previous_state
    &&& a.state == b.state
    &&& a.reason == b.reason
    &&& a.detected_at_ms == b.detected_at_ms
    &&& a.observed_at_ms == b.observed_at_ms
    &&& a.duration_ms == b.duration_ms
    &&& a.window_ms == b.window_ms
    &&& a.matched@ == b.matched@
    &&& a.peak@ == b.peak@
    &&& a.skipped@ == b.skipped@
    &&& a.rates == b.rates
    &&& a.completeness == b.completeness
    &&& a.sampling == b.sampling
    &&& a.flows_observed == b.flows_observed
    &&& a.exporters_observed == b.exporters_observed
    &&& a.snapshots_in_detection == b.snapshots_in_detection
    &&& a.executed == b.executed
    &&& a.summary@ == b.summary@
}

impl DetectionEvent {
    /// A copy of the event.
    pub fn duplicate(&self) -> (r: DetectionEvent)
        ensures
            same_event(*self, r),
    {
        DetectionEvent {
            schema_version: self.schema_version,
            event_id: self.event_id.clone(),
            detection_id: self.detection_id.clone(),
            sequence: self.sequence,
            kind: self.kind,
            dedup_key: self.dedup_key.clone(),
            policy_id: self.policy_id.clone(),
            policy_name: self.policy_name.clone(),
            policy_version: self.policy_version,
            severity: self.severity,
            execution_mode: self.execution_mode,
            action: self.action,
            labels: copy_labels(&self.labels),
            target: EventTarget {
                tenant: self.target.tenant.clone(),
                scope_type: self.target.scope_type,
                scope_id: self.target.scope_id.duplicate(),
                display: self.target.display.clone(),
                direction: self.target.direction,
                address_family: self.target.address_family,
            },
            previous_state: self.previous_state,
            state: self.state,
            reason: self.reason,
            detected_at_ms: self.detected_at_ms,
            observed_at_ms: self.observed_at_ms,
            duration_ms: self.duration_ms,
            window_ms: self.window_ms,
            matched: copy_reasons(&self.matched),
            peak: copy_reasons(&self.peak),
            skipped: copy_skipped(&self.skipped),
            rates: self.rates,
            completeness: self.completeness,
            sampling: self.sampling,
            flows_observed: self.flows_observed,
            exporters_observed: self.exporters_observed,
            snapshots_in_detection: self.snapshots_in_detection,
            executed: self.executed,
            summary: self.summary.clone(),
        }
    }

    /// Whether this event should be published, given its mode.
    pub fn is_publishable(&self) -> (r: bool)
        ensures
            r == self.execution_mode.emits_events_spec(),
    {
        self.execution_mode.emits_events()
    }
}

/// The text of labels, pair by pair.
pub open spec fn labels_text(l: Seq<(String, String)>) -> Seq<(Seq<char>, Seq<char>)> {
    l.map_values(|p: (String, String)| (p.0@, p.1@))
}

fn copy_labels(l: &Vec<(String, String)>) -> (r: Vec<(String, String)>)
    ensures
        labels_text(r@) == labels_text(l@),
{
    let mut out: Vec<(String, String)> = Vec::new();
    let mut i: usize = 0;
    while i < l.len()
        invariant
            i <= l@.len(),
            out@.len() == i,
            forall|j: int| 0 <= j < i ==> (#[trigger] out@[j]).0@ == l@[j].0@ && out@[j].1@ == l@[j].1@,
        decreases l@.len() - i,
    {
        let k = l[i].0.clone();
        let v = l[i].1.clone();
        out.push((k, v));
        i = i + 1;
    }
    proof {
        assert(labels_text(out@) =~= labels_text(l@));
    }
    out
}

fn copy_reasons(v: &Vec<MatchedReason>) -> (r: Vec<MatchedReason>)
    ensures
        r@ == v@,
{
    let mut out: Vec<MatchedReason> = Vec::new();
    let mut i: usize = 0;
    while i < v.len()
        invariant
            i <= v@.len(),
            out@ == v@.subrange(0, i as int),
        decreases v@.len() - i,
    {
        out.push(v[i]);
        proof {
            assert(v@.subrange(0, i + 1) =~= v@.subrange(0, i as int).push(v@[i as int]));
        }
        i = i + 1;
    }
    proof {
        assert(v@.subrange(0, v@.len() as int) =~= v@);
    }
    out
}

fn copy_skipped(v: &Vec<SkippedMetric>) -> (r: Vec<SkippedMetric>)
    ensures
        r@ == v@,
{
    let mut out: Vec<SkippedMetric> = Vec::new();
    let mut i: usize = 0;
    while i < v.len()
        invariant
            i <= v@.len(),
            out@ == v@.subrange(0, i as int),
        decreases v@.len() - i,
    {
        out.push(v[i]);
        proof {
            assert(v@.subrange(0, i + 1) =~= v@.subrange(0, i as int).push(v@[i as int]));
        }
        i = i + 1;
    }
    proof {
        assert(v@.subrange(0, v@.len() as int) =~= v@);
    }
    out
}

/// Milliseconds since the Unix epoch of a wall instant, zero for one
/// before the epoch, saturating at `u64::MAX`.
pub open spec fn unix_millis_spec(at: i128) -> u64 {
    if at < 0 {
        0
    } else {
        let ms = at / 1_000_000;
        if ms > u64::MAX { u64::MAX } else { ms as u64 }
    }
}

/// Milliseconds since the Unix epoch of a wall instant given in
/// nanoseconds; zero for an instant before the epoch.
pub fn unix_millis(at: i128) -> (r: u64)
    ensures
        r == unix_millis_spec(at),
{
    if at < 0 {
        return 0;
    }
    let ms = at / 1_000_000;
    if ms > u64::MAX as i128 { u64::MAX } else { ms as u64 }
}

/// Whole milliseconds of a duration, saturating at `u64::MAX`.
pub open spec fn millis_spec(d: u128) -> u64 {
    let ms = d / 1_000_000;
    if ms > u64::MAX { u64::MAX } else { ms as u64 }
}

fn millis(d: u128) -> (r: u64)
    ensures
        r == millis_spec(d),
{
    let ms = d / 1_000_000;
    if ms > u64::MAX as u128 { u64::MAX } else { ms as u64 }
}

/// Whole seconds of a duration, saturating at `u64::MAX`.
pub open spec fn secs_spec(d: u128) -> u64 {
    let s = d / 1_000_000_000;
    if s > u64::MAX { u64::MAX } else { s as u64 }
}

fn secs(d: u128) -> (r: u64)
    ensures
        r == secs_spec(d),
{
    let s = d / 1_000_000_000;
    if s > u64::MAX as u128 { u64::MAX } else { s as u64 }
}

/// The position of the reason with the largest ratio, the last one of
/// several equal ones; `None` for no reasons.
pub open spec fn worst_of(s: Seq<MatchedReason>) -> Option<int>
    decreases s.len(),
{
    if s.len() == 0 {
        None
    } else {
        let last = s.len() - 1;
        match worst_of(s.drop_last()) {
            None => Some(last),
            Some(i) => if s[last].ratio_percent >= s[i].ratio_percent { Some(last) } else { Some(i) },
        }
    }
}

proof fn lemma_worst_in_range(s: Seq<MatchedReason>)
    ensures
        worst_of(s) matches Some(i) ==> 0 <= i < s.len(),
        worst_of(s) is None <==> s.len() == 0,
    decreases s.len(),
{
    if s.len() > 0 {
        lemma_worst_in_range(s.drop_last());
    }
}

/// The crossing picked as the worst has the largest ratio to its
/// threshold of all the crossings, and every crossing after it has a
/// strictly smaller one (of several equal largest, the last is picked);
/// there is a pick exactly when there is a crossing.
pub proof fn law_worst_is_the_largest_crossing(s: Seq<MatchedReason>)
    ensures
        worst_of(s) is Some <==> s.len() > 0,
        worst_of(s) matches Some(i) ==> {
            &&& 0 <= i < s.len()
            &&& forall|j: int| 0 <= j < s.len() ==> (#[trigger] s[j]).ratio_percent <= s[i].ratio_percent
            &&& forall|j: int| i < j < s.len() ==> (#[trigger] s[j]).ratio_percent < s[i].ratio_percent
        },
    decreases s.len(),
{
    lemma_worst_in_range(s);
    if s.len() > 0 {
        let p = s.drop_last();
        law_worst_is_the_largest_crossing(p);
        let last = s.len() - 1;
        assert forall|j: int| 0 <= j < p.len() implies #[trigger] p[j] == s[j] by {}
        match worst_of(p) {
            None => {},
            Some(b) => {
                assert(p[b] == s[b]);
                if s[last].ratio_percent >= s[b].ratio_percent {
                    assert forall|j: int| 0 <= j < s.len() implies (#[trigger] s[j]).ratio_percent <= s[last].ratio_percent by {
                        if j < last {
                            assert(p[j] == s[j]);
                        }
                    }
                } else {
                    assert forall|j: int| 0 <= j < s.len() implies (#[trigger] s[j]).ratio_percent <= s[b].ratio_percent by {
                        if j < last {
                            assert(p[j] == s[j]);
                        }
                    }
                    assert forall|j: int| b < j < s.len() implies (#[trigger] s[j]).ratio_percent < s[b].ratio_percent by {
                        if j < last {
                            assert(p[j] == s[j]);
                        }
                    }
                }
            },
        }
    }
}

/// The summary of a start or an update names the crossing, among those
/// of the snapshot, with the largest ratio to its threshold; that of an
/// end names the largest of the detection's peaks.
pub proof fn law_summary_names_the_worst_crossing(
    k: ScopeKeyView,
    severity: Severity,
    policy_id: Seq<char>,
    kind: EventKind,
    matched: Seq<MatchedReason>,
    peak: Seq<MatchedReason>,
    duration: u128,
)
    ensures
        kind != EventKind::Ended && matched.len() > 0 ==> exists|i: int| {
            &&& 0 <= i < matched.len()
            &&& forall|j: int| 0 <= j < matched.len() ==> (#[trigger] matched[j]).ratio_percent <= matched[i].ratio_percent
            &&& summary_text(k, severity, policy_id, kind, matched, peak, duration) == severity.name() + " "@ + kind.name() + ": "@
                + subject_text(k) + " at "@ + reason_text(#[trigger] matched[i]) + " under policy "@ + policy_id
        },
        kind == EventKind::Ended && peak.len() > 0 ==> exists|i: int| {
            &&& 0 <= i < peak.len()
            &&& forall|j: int| 0 <= j < peak.len() ==> (#[trigger] peak[j]).ratio_percent <= peak[i].ratio_percent
            &&& summary_text(k, severity, policy_id, kind, matched, peak, duration) == "ended: "@ + subject_text(k) + " after "@
                + decimal(secs_spec(duration) as nat) + "s, peaking at "@ + reason_text(#[trigger] peak[i]) + " under policy "@ + policy_id
        },
{
    law_worst_is_the_largest_crossing(matched);
    law_worst_is_the_largest_crossing(peak);
    if kind != EventKind::Ended && matched.len() > 0 {
        let i = worst_of(matched)->0;
        assert(reason_text(matched[i]) == reason_text(matched[i]));
    }
    if kind == EventKind::Ended && peak.len() > 0 {
        let i = worst_of(peak)->0;
        assert(reason_text(peak[i]) == reason_text(peak[i]));
    }
}

fn worst_index(s: &Vec<MatchedReason>) -> (r: Option<usize>)
    ensures
        match r {
            Some(i) => worst_of(s@) == Some(i as int) && i < s@.len(),
            None => worst_of(s@) is None,
        },
{
    let mut best: Option<usize> = None;
    let mut i: usize = 0;
    while i < s.len()
        invariant
            i <= s@.len(),
            match best {
                Some(b) => worst_of(s@.subrange(0, i as int)) == Some(b as int) && b < i,
                None => worst_of(s@.subrange(0, i as int)) is None,
            },
        decreases s@.len() - i,
    {
        proof {
            assert(s@.subrange(0, i + 1).drop_last() =~= s@.subrange(0, i as int));
        }
        best = match best {
            None => Some(i),
            Some(b) => if s[i].ratio_percent >= s[b].ratio_percent { Some(i) } else { Some(b) },
        };
        i = i + 1;
    }
    proof {
        assert(s@.subrange(0, s@.len() as int) =~= s@);
    }
    best
}

/// `direction scope-type display`.
pub open spec fn subject_text(k: ScopeKeyView) -> Seq<char> {
    k.direction.name() + " "@ + k.scope_type.name() + " "@ + scope_id_text(k.scope_id)
}

/// `observed unit (ratio% of the metric threshold)`.
pub open spec fn reason_text(r: MatchedReason) -> Seq<char> {
    decimal(r.observed as nat) + " "@ + r.metric.unit_spec().name() + " ("@ + decimal(r.ratio_percent as nat)
        + "% of the "@ + r.metric.name() + " threshold)"@
}

/// The one-line summary of an event: severity and kind, the subject and
/// the worst crossing (from `matched`, else from `peak`) for a start or
/// update; the subject, how long it lasted and the peak for an end.
pub open spec fn summary_text(
    k: ScopeKeyView,
    severity: Severity,
    policy_id: Seq<char>,
    kind: EventKind,
    matched: Seq<MatchedReason>,
    peak: Seq<MatchedReason>,
    duration: u128,
) -> Seq<char> {
    let subject = subject_text(k);
    match kind {
        EventKind::Ended => match worst_of(peak) {
            Some(i) => "ended: "@ + subject + " after "@ + decimal(secs_spec(duration) as nat) + "s, peaking at "@
                + reason_text(peak[i]) + " under policy "@ + policy_id,
            None => "ended: "@ + subject + " after "@ + decimal(secs_spec(duration) as nat) + "s under policy "@
                + policy_id,
        },
        _ => {
            let worst = match worst_of(matched) {
                Some(i) => Some(matched[i]),
                None => match worst_of(peak) {
                    Some(j) => Some(peak[j]),
                    None => None,
                },
            };
            match worst {
                Some(r) => severity.name() + " "@ + kind.name() + ": "@ + subject + " at "@ + reason_text(r)
                    + " under policy "@ + policy_id,
                None => severity.name() + " "@ + kind.name() + ": "@ + subject + " under policy "@ + policy_id,
            }
        },
    }
}

/// The summary of an end built without a snapshot.
pub open spec fn closing_summary_text(k: ScopeKeyView, reason: TransitionReason, duration: u128, policy_id: Seq<char>) -> Seq<char> {
    "ended ("@ + reason.name() + "): "@ + subject_text(k) + " after "@ + decimal(secs_spec(duration) as nat)
        + "s under policy "@ + policy_id
}

fn push_subject(out: &mut Vec<char>, t: &EventTarget)
    requires
        t.display@ == scope_id_text(t.scope_id@),
    ensures
        final(out)@ == old(out)@ + subject_text(target_key(*t)),
{
    push_text(out, t.direction.as_str());
    push_text(out, " ");
    push_text(out, t.scope_type.as_str());
    push_text(out, " ");
    push_text(out, t.display.as_str());
    proof {
        reveal_strlit(" ");
        assert(final(out)@ =~= old(out)@ + subject_text(target_key(*t)));
    }
}

fn push_reason(out: &mut Vec<char>, r: &MatchedReason)
    ensures
        final(out)@ == old(out)@ + reason_text(*r),
{
    push_decimal(out, r.observed as u128);
    push_text(out, " ");
    push_text(out, r.metric.unit().as_str());
    push_text(out, " (");
    push_decimal(out, r.ratio_percent as u128);
    push_text(out, "% of the ");
    push_text(out, r.metric.as_str());
    push_text(out, " threshold)");
    proof {
        reveal_strlit(" ");
        reveal_strlit(" (");
        reveal_strlit("% of the ");
        reveal_strlit(" threshold)");
        assert(final(out)@ =~= old(out)@ + reason_text(*r));
    }
}

fn summarize(
    t: &EventTarget,
    severity: Severity,
    policy_id: &String,
    kind: EventKind,
    matched: &Vec<MatchedReason>,
    peak: &Vec<MatchedReason>,
    duration: u128,
) -> (r: String)
    requires
        t.display@ == scope_id_text(t.scope_id@),
    ensures
        r@ == summary_text(target_key(*t), severity, policy_id@, kind, matched@, peak@, duration),
{
    let ghost k = target_key(*t);
    let mut out: Vec<char> = Vec::new();
    proof {
        reveal_strlit("ended: ");
        reveal_strlit(" after ");
        reveal_strlit("s, peaking at ");
        reveal_strlit("s under policy ");
        reveal_strlit(" under policy ");
        reveal_strlit(" ");
        reveal_strlit(": ");
        reveal_strlit(" at ");
    }
    match kind {
        EventKind::Ended => {
            push_text(&mut out, "ended: ");
            push_subject(&mut out, t);
            push_text(&mut out, " after ");
            push_decimal(&mut out, secs(duration) as u128);
            match worst_index(peak) {
                Some(i) => {
                    push_text(&mut out, "s, peaking at ");
                    push_reason(&mut out, &peak[i]);
                    push_text(&mut out, " under policy ");
                },
                None => {
                    push_text(&mut out, "s under policy ");
                },
            }
            push_text(&mut out, policy_id.as_str());
        },
        _ => {
            push_text(&mut out, severity.as_str());
            push_text(&mut out, " ");
            push_text(&mut out, kind.as_str());
            push_text(&mut out, ": ");
            push_subject(&mut out, t);
            let worst: Option<MatchedReason> = match worst_index(matched) {
                Some(i) => Some(matched[i]),
                None => match worst_index(peak) {
                    Some(j) => Some(peak[j]),
                    None => None,
                },
            };
            match worst {
                Some(r) => {
                    push_text(&mut out, " at ");
                    push_reason(&mut out, &r);
                },
                None => {},
            }
            push_text(&mut out, " under policy ");
            push_text(&mut out, policy_id.as_str());
        },
    }
    proof {
        assert(out@ =~= summary_text(k, severity, policy_id@, kind, matched@, peak@, duration));
    }
    string_from_chars(out)
}

/// The text of a unique event id: the instance and the event's serial
/// number, each as sixteen hexadecimal digits, joined by a hyphen.
pub open spec fn event_id_text(instance_id: u64, serial: u64) -> Seq<char> {
    hex_fixed(instance_id as nat, 16) + "-"@ + hex_fixed(serial as nat, 16)
}

/// The hash of a detection's instance, scope and opening instant, as
/// `DefaultHasher` computes it over those values.
pub uninterp spec fn detection_hash(instance_id: u64, key: ScopeKeyView, started_at: u128) -> u64;

/// `DefaultHasher` over the instance id, each field of the target's key
/// and the opening instant, in that order.
#[verifier::external_body]
fn hash_detection(instance_id: u64, target: &EventTarget, started_at: u128) -> (r: u64)
    ensures
        r == detection_hash(instance_id, target_key(*target), started_at),
{
    let mut hasher = std::collections::hash_map::DefaultHasher::new();
    instance_id.hash(&mut hasher);
    target.tenant.hash(&mut hasher);
    target.scope_type.hash(&mut hasher);
    target.scope_id.hash(&mut hasher);
    target.direction.hash(&mut hasher);
    target.address_family.hash(&mut hasher);
    started_at.hash(&mut hasher);
    hasher.finish()
}

/// The text of a detection id: the instance, then the hash of the
/// instance, scope and opening instant, each as sixteen hexadecimal
/// digits.
pub open spec fn detection_id_text(instance_id: u64, key: ScopeKeyView, started_at: u128) -> Seq<char> {
    hex_fixed(instance_id as nat, 16) + hex_fixed(detection_hash(instance_id, key, started_at) as nat, 16)
}

/// The text of a dedup key: the detection, the kind and the position
/// within the detection.
pub open spec fn dedup_text(detection_id: Seq<char>, kind: EventKind, sequence: u64) -> Seq<char> {
    detection_id + ":"@ + kind.name() + ":"@ + decimal(sequence as nat)
}

/// What an at-least-once transport collapses on.
pub fn dedup_key(detection_id: &str, kind: EventKind, sequence: u64) -> (r: String)
    ensures
        r@ == dedup_text(detection_id@, kind, sequence),
{
    let mut out: Vec<char> = Vec::new();
    push_text(&mut out, detection_id);
    push_text(&mut out, ":");
    push_text(&mut out, kind.as_str());
    push_text(&mut out, ":");
    push_decimal(&mut out, sequence as u128);
    proof {
        reveal_strlit(":");
        assert(out@ =~= dedup_text(detection_id@, kind, sequence));
    }
    string_from_chars(out)
}

/// Mints identifiers and assembles events; one per running engine.
#[derive(Debug)]
pub struct EventFactory {
    instance_id: u64,
    counter: u64,
}

/// An [`EventFactory`] as values: its instance and the serial number
/// of the next event id.
pub struct FactoryView {
    pub instance_id: u64,
    pub counter: u64,
}

impl View for EventFactory {
    type V = FactoryView;

    closed spec fn view(&self) -> FactoryView {
        FactoryView { instance_id: self.instance_id, counter: self.counter }
    }
}

/// The factory after minting one event id: the serial number advances,
/// wrapping at `u64::MAX`.
pub open spec fn minted(f: FactoryView) -> FactoryView {
    FactoryView { instance_id: f.instance_id, counter: if f.counter == u64::MAX { 0 } else { (f.counter + 1) as u64 } }
}

/// Everything an event states about itself, given what it was built
/// from, except its observation figures and summary.
pub open spec fn event_identity(
    e: DetectionEvent,
    f: FactoryView,
    record: SignalRecord,
    policy: DetectionPolicy,
    key: ScopeKeyView,
    kind: EventKind,
) -> bool {
    let t: TransitionView = record.transition@;
    let detection_id = detection_id_text(f.instance_id, key, record.detection.started_at);
    &&& e.schema_version == EVENT_SCHEMA_VERSION
    &&& e.event_id@ == event_id_text(f.instance_id, f.counter)
    &&& e.detection_id@ == detection_id
    &&& e.sequence == record.detection.sequence
    &&& e.kind == kind
    &&& e.dedup_key@ == dedup_text(detection_id, kind, record.detection.sequence)
    &&& e.policy_id@ == t.policy_id
    &&& e.policy_version == t.policy_version
    &&& e.policy_name@ == policy.name@
    &&& e.severity == policy.severity
    &&& e.execution_mode == policy.execution_mode
    &&& action_for(policy.execution_mode) == Some(e.action)
    &&& labels_text(e.labels@) == labels_text(policy.labels@)
    &&& target_of(e.target, key)
    &&& e.previous_state == t.from
    &&& e.state == t.to
    &&& e.reason == t.reason
    &&& e.detected_at_ms == unix_millis_spec(record.detection.started_wall)
    &&& e.peak@ == record.detection.peak@
    &&& e.snapshots_in_detection == record.detection.snapshots_in_detection
    &&& !e.executed
}

/// The event built from one signal and the snapshot that produced it.
pub open spec fn snapshot_event(
    e: DetectionEvent,
    f: FactoryView,
    record: SignalRecord,
    policy: DetectionPolicy,
    snapshot: DetectionSnapshot,
    matched: Seq<MatchedReason>,
    skipped: Seq<SkippedMetric>,
) -> bool {
    let duration = elapsed(snapshot.observed_at, record.detection.started_at);
    let kind = kind_of(record.signal);
    &&& event_identity(e, f, record, policy, snapshot.key@, kind)
    &&& e.observed_at_ms == unix_millis_spec(snapshot.observed_wall)
    &&& e.duration_ms == millis_spec(duration)
    &&& e.window_ms == millis_spec(snapshot.window)
    &&& e.matched@ == matched
    &&& e.skipped@ == skipped
    &&& e.rates == snapshot.rates
    &&& e.completeness == snapshot.completeness
    &&& e.sampling == snapshot.sampling
    &&& e.flows_observed == snapshot.flows_observed
    &&& e.exporters_observed == snapshot.exporters_observed
    &&& e.summary@ == summary_text(snapshot.key@, policy.severity, policy.id@, kind, matched, record.detection.peak@, duration)
}

/// The end event of a detection closed without a snapshot: every
/// observation figure is zero rather than the last one seen.
pub open spec fn closing_event(e: DetectionEvent, f: FactoryView, record: SignalRecord, policy: DetectionPolicy, closed_wall: i128) -> bool {
    let t = record.transition@;
    let duration = elapsed(t.at, record.detection.started_at);
    &&& event_identity(e, f, record, policy, t.key, EventKind::Ended)
    &&& e.observed_at_ms == unix_millis_spec(closed_wall)
    &&& e.duration_ms == millis_spec(duration)
    &&& e.window_ms == millis_spec(policy.window)
    &&& e.matched@.len() == 0
    &&& e.skipped@.len() == 0
    &&& e.rates == MetricRates::zero()
    &&& e.completeness == (DataCompleteness { protocol_seen: false, tcp_flags_seen: false, fragmentation_seen: false, forwarding_status_seen: false })
    &&& e.sampling == (SamplingStatus { corrected: false, used_global_default: false, max_rate: 0 })
    &&& e.flows_observed == 0
    &&& e.exporters_observed == 0
    &&& e.summary@ == closing_summary_text(t.key, t.reason, duration, policy.id@)
}

impl EventFactory {
    /// A factory seeded from the process, so two engines are unlikely to
    /// mint colliding ids.
    pub fn new() -> (r: EventFactory)
        ensures
            r@.counter == 0,
    {
        EventFactory::with_instance_id(fresh_seed())
    }

    /// A factory with a fixed instance id.
    pub fn with_instance_id(instance_id: u64) -> (r: EventFactory)
        ensures
            r@ == (FactoryView { instance_id, counter: 0 }),
    {
        EventFactory { instance_id, counter: 0 }
    }

    pub fn instance_id(&self) -> (r: u64)
        ensures
            r == self@.instance_id,
    {
        self.instance_id
    }

    /// Stable for the whole life of one detection: derived from the
    /// instance, the scope and when the detection opened.
    pub fn detection_id(&self, target: &EventTarget, started_at: u128) -> (r: String)
        ensures
            r@ == detection_id_text(self@.instance_id, target_key(*target), started_at),
    {
        let h = hash_detection(self.instance_id, target, started_at);
        let mut out: Vec<char> = Vec::new();
        push_hex_fixed(&mut out, self.instance_id, 16);
        push_hex_fixed(&mut out, h, 16);
        proof {
            assert(out@ =~= detection_id_text(self@.instance_id, target_key(*target), started_at));
        }
        string_from_chars(out)
    }

    /// Unique per event, in serial order within one factory.
    pub fn next_event_id(&mut self) -> (r: String)
        ensures
            r@ == event_id_text(old(self)@.instance_id, old(self)@.counter),
            final(self)@ == minted(old(self)@),
    {
        let serial = self.counter;
        self.counter = if self.counter == u64::MAX { 0 } else { self.counter + 1 };
        let mut out: Vec<char> = Vec::new();
        push_hex_fixed(&mut out, self.instance_id, 16);
        push_text(&mut out, "-");
        push_hex_fixed(&mut out, serial, 16);
        proof {
            reveal_strlit("-");
            assert(out@ =~= event_id_text(old(self)@.instance_id, old(self)@.counter));
        }
        string_from_chars(out)
    }

    fn target_for(key_tenant: &String, scope_type: ScopeType, scope_id: &ScopeId, direction: TrafficDirection, address_family: AddressFamily) -> (r: EventTarget)
        ensures
            target_of(r, ScopeKeyView { tenant: key_tenant@, scope_type, scope_id: scope_id@, direction, address_family }),
    {
        EventTarget {
            tenant: key_tenant.clone(),
            scope_type,
            scope_id: scope_id.duplicate(),
            display: scope_id.to_string(),
            direction,
            address_family,
        }
    }

    /// Builds the event for one signal; `None` only when the policy's
    /// mode produces no event (`Disabled`).
    pub fn build(
        &mut self,
        record: &SignalRecord,
        policy: &DetectionPolicy,
        snapshot: &DetectionSnapshot,
        matched: &Vec<MatchedReason>,
        skipped: &Vec<SkippedMetric>,
    ) -> (r: Option<DetectionEvent>)
        ensures
            r is None <==> policy.execution_mode == ExecutionMode::Disabled,
            r is None ==> final(self)@ == old(self)@,
            r matches Some(e) ==> final(self)@ == minted(old(self)@)
                && snapshot_event(e, old(self)@, *record, *policy, *snapshot, matched@, skipped@),
    {
        let action = match ActionTaken::for_mode(policy.execution_mode) {
            Some(a) => a,
            None => {
                return None;
            },
        };
        let ghost f0 = self@;
        let transition = &record.transition;
        let context = &record.detection;
        let kind = EventKind::from(record.signal);
        let key = &snapshot.key;
        let target = EventFactory::target_for(&key.tenant, key.scope_type, &key.scope_id, key.direction, key.address_family);
        let detection_id = self.detection_id(&target, context.started_at);
        let duration: u128 = if snapshot.observed_at >= context.started_at { snapshot.observed_at - context.started_at } else { 0 };
        let summary = summarize(&target, policy.severity, &policy.id, kind, matched, &context.peak, duration);
        let event_id = self.next_event_id();
        let dedup = dedup_key(detection_id.as_str(), kind, context.sequence);
        let e = DetectionEvent {
            schema_version: EVENT_SCHEMA_VERSION,
            event_id,
            dedup_key: dedup,
            detection_id,
            sequence: context.sequence,
            kind,
            policy_id: transition.policy_id.clone(),
            policy_version: transition.policy_version,
            policy_name: policy.name.clone(),
            severity: policy.severity,
            execution_mode: policy.execution_mode,
            action,
            labels: copy_labels(&policy.labels),
            target,
            previous_state: transition.from,
            state: transition.to,
            reason: transition.reason,
            detected_at_ms: unix_millis(context.started_wall),
            observed_at_ms: unix_millis(snapshot.observed_wall),
            duration_ms: millis(duration),
            window_ms: millis(snapshot.window),
            matched: copy_reasons(matched),
            peak: copy_reasons(&context.peak),
            skipped: copy_skipped(skipped),
            rates: snapshot.rates,
            completeness: snapshot.completeness,
            sampling: snapshot.sampling,
            flows_observed: snapshot.flows_observed,
            exporters_observed: snapshot.exporters_observed,
            snapshots_in_detection: context.snapshots_in_detection,
            executed: action.executed(),
            summary,
        };
        Some(e)
    }

    /// Builds the end event of a detection closed without a snapshot,
    /// because its data stopped arriving or its policy went away; `None`
    /// only for a `Disabled` policy.
    pub fn build_closing(&mut self, record: &SignalRecord, policy: &DetectionPolicy, closed_wall: i128) -> (r: Option<DetectionEvent>)
        ensures
            r is None <==> policy.execution_mode == ExecutionMode::Disabled,
            r is None ==> final(self)@ == old(self)@,
            r matches Some(e) ==> final(self)@ == minted(old(self)@) && closing_event(e, old(self)@, *record, *policy, closed_wall),
    {
        let action = match ActionTaken::for_mode(policy.execution_mode) {
            Some(a) => a,
            None => {
                return None;
            },
        };
        let transition = &record.transition;
        let context = &record.detection;
        let key = &transition.key;
        let target = EventFactory::target_for(&key.tenant, key.scope_type, &key.scope_id, key.direction, key.address_family);
        let detection_id = self.detection_id(&target, context.started_at);
        let duration: u128 = if transition.at >= context.started_at { transition.at - context.started_at } else { 0 };
        let mut text: Vec<char> = Vec::new();
        push_text(&mut text, "ended (");
        push_text(&mut text, transition.reason.as_str());
        push_text(&mut text, "): ");
        push_subject(&mut text, &target);
        push_text(&mut text, " after ");
        push_decimal(&mut text, secs(duration) as u128);
        push_text(&mut text, "s under policy ");
        push_text(&mut text, policy.id.as_str());
        proof {
            reveal_strlit("ended (");
            reveal_strlit("): ");
            reveal_strlit(" after ");
            reveal_strlit("s under policy ");
            assert(text@ =~= closing_summary_text(transition@.key, transition.reason, duration, policy.id@));
        }
        let summary = string_from_chars(text);
        let event_id = self.next_event_id();
        let dedup = dedup_key(detection_id.as_str(), EventKind::Ended, context.sequence);
        let e = DetectionEvent {
            schema_version: EVENT_SCHEMA_VERSION,
            event_id,
            dedup_key: dedup,
            detection_id,
            sequence: context.sequence,
            kind: EventKind::Ended,
            policy_id: transition.policy_id.clone(),
            policy_version: transition.policy_version,
            policy_name: policy.name.clone(),
            severity: policy.severity,
            execution_mode: policy.execution_mode,
            action,
            labels: copy_labels(&policy.labels),
            target,
            previous_state: transition.from,
            state: transition.to,
            reason: transition.reason,
            detected_at_ms: unix_millis(context.started_wall),
            observed_at_ms: unix_millis(closed_wall),
            duration_ms: millis(duration),
            window_ms: millis(policy.window),
            matched: Vec::new(),
            peak: copy_reasons(&context.peak),
            skipped: Vec::new(),
            rates: MetricRates::default(),
            completeness: DataCompleteness { protocol_seen: false, tcp_flags_seen: false, fragmentation_seen: false, forwarding_status_seen: false },
            sampling: SamplingStatus { corrected: false, used_global_default: false, max_rate: 0 },
            flows_observed: 0,
            exporters_observed: 0,
            snapshots_in_detection: context.snapshots_in_detection,
            executed: action.executed(),
            summary,
        };
        Some(e)
    }
}

/// Two event ids a factory mints from different serial numbers differ.
pub proof fn law_event_ids_do_not_repeat(instance_id: u64, a: u64, b: u64)
    requires
        a != b,
    ensures
        event_id_text(instance_id, a) != event_id_text(instance_id, b),
{
    reveal_strlit("-");
    let ta = event_id_text(instance_id, a);
    let tb = event_id_text(instance_id, b);
    lemma_hex_len(instance_id as nat, 16);
    lemma_hex_len(a as nat, 16);
    lemma_hex_len(b as nat, 16);
    if ta == tb {
        assert(ta.subrange(17, 33) =~= hex_fixed(a as nat, 16));
        assert(tb.subrange(17, 33) =~= hex_fixed(b as nat, 16));
        lemma_u64_below_pow16(a);
        lemma_u64_below_pow16(b);
        lemma_hex_injective(a as nat, b as nat, 16);
    }
}

/// `fs` is a factory through a run of [`EventFactory::next_event_id`]
/// calls, and `ids[i]` is what the `i`-th call returned.
pub open spec fn minting_run(fs: Seq<FactoryView>, ids: Seq<Seq<char>>) -> bool {
    &&& fs.len() == ids.len() + 1
    &&& forall|i: int| 0 <= i < ids.len() ==> #[trigger] fs[i + 1] == minted(fs[i])
    &&& forall|i: int| 0 <= i < ids.len() ==> #[trigger] ids[i] == event_id_text(fs[i].instance_id, fs[i].counter)
}

proof fn lemma_minting_counts(fs: Seq<FactoryView>, ids: Seq<Seq<char>>, n: int)
    requires
        minting_run(fs, ids),
        0 <= n <= ids.len(),
        fs[0].counter + n <= u64::MAX,
    ensures
        fs[n].instance_id == fs[0].instance_id,
        fs[n].counter == fs[0].counter + n,
    decreases n,
{
    if n > 0 {
        lemma_minting_counts(fs, ids, n - 1);
        assert(fs[(n - 1) + 1] == minted(fs[n - 1]));
    }
}

/// The ids one factory hands out count up: the `i`-th call of a run
/// returns the instance id and the starting serial plus `i`, sixteen hex
/// digits each, so no two calls of a run that does not wrap the serial
/// return the same id.
pub proof fn law_event_ids_count_up(fs: Seq<FactoryView>, ids: Seq<Seq<char>>)
    requires
        minting_run(fs, ids),
        fs[0].counter + ids.len() <= u64::MAX + 1,
    ensures
        forall|i: int| 0 <= i < ids.len() ==> #[trigger] ids[i] == event_id_text(fs[0].instance_id, (fs[0].counter + i) as u64),
        forall|i: int, j: int| 0 <= i < j < ids.len() ==> #[trigger] ids[i] != #[trigger] ids[j],
{
    assert forall|i: int| 0 <= i < ids.len() implies #[trigger] ids[i] == event_id_text(fs[0].instance_id, (fs[0].counter + i) as u64) by {
        lemma_minting_counts(fs, ids, i);
    }
    assert forall|i: int, j: int| 0 <= i < j < ids.len() implies #[trigger] ids[i] != #[trigger] ids[j] by {
        lemma_minting_counts(fs, ids, i);
        lemma_minting_counts(fs, ids, j);
        law_event_ids_do_not_repeat(fs[0].instance_id, fs[i].counter, fs[j].counter);
    }
}

/// Two factories with different instance ids never mint the same
/// detection id.
pub proof fn law_instances_do_not_share_detection_ids(i1: u64, i2: u64, k1: ScopeKeyView, k2: ScopeKeyView, t1: u128, t2: u128)
    requires
        i1 != i2,
    ensures
        detection_id_text(i1, k1, t1) != detection_id_text(i2, k2, t2),
{
    let d1 = detection_id_text(i1, k1, t1);
    let d2 = detection_id_text(i2, k2, t2);
    lemma_hex_len(i1 as nat, 16);
    lemma_hex_len(i2 as nat, 16);
    lemma_hex_len(detection_hash(i1, k1, t1) as nat, 16);
    lemma_hex_len(detection_hash(i2, k2, t2) as nat, 16);
    if d1 == d2 {
        assert(d1.subrange(0, 16) =~= hex_fixed(i1 as nat, 16));
        assert(d2.subrange(0, 16) =~= hex_fixed(i2 as nat, 16));
        lemma_u64_below_pow16(i1);
        lemma_u64_below_pow16(i2);
        lemma_hex_injective(i1 as nat, i2 as nat, 16);
    }
}

/// Two events of one detection share a dedup key only when they agree
/// on kind and sequence: a redelivery collapses, distinct events never
/// do.
pub proof fn law_dedup_keys_identify_events(detection_id: Seq<char>, k1: EventKind, s1: u64, k2: EventKind, s2: u64)
    requires
        dedup_text(detection_id, k1, s1) == dedup_text(detection_id, k2, s2),
    ensures
        k1 == k2,
        s1 == s2,
{
    reveal_strlit(":");
    reveal_strlit("started");
    reveal_strlit("updated");
    reveal_strlit("ended");
    let n: int = detection_id.len() as int + 1;
    let a = dedup_text(detection_id, k1, s1);
    let b = dedup_text(detection_id, k2, s2);
    let ra = k1.name() + ":"@ + decimal(s1 as nat);
    let rb = k2.name() + ":"@ + decimal(s2 as nat);
    assert(a.subrange(n, a.len() as int) =~= ra);
    assert(b.subrange(n, b.len() as int) =~= rb);
    assert(ra == rb);
    if k1 != k2 {
        assert(ra[5] != rb[5] || ra[0] != rb[0]);
    }
    let m: int = k1.name().len() as int + 1;
    assert(ra.subrange(m, ra.len() as int) =~= decimal(s1 as nat));
    assert(rb.subrange(m, rb.len() as int) =~= decimal(s2 as nat));
    lemma_decimal_injective(s1 as nat, s2 as nat);
}

} // verus!
