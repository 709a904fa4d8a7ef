//! The engine: policies in, snapshots in, events out.
//!
//! Everything else in the detector is a component with one job. This is
//! the piece that runs them in order: select a policy, evaluate its
//! thresholds, advance the state machine, build an event, publish it,
//! count what happened. It holds nothing that could act on traffic; a
//! sink receives an event and returns.

use vstd::prelude::*;

verus! {

use crate::clock::{Clock, SystemClock};
use crate::evaluate::{below_clear_spec, evaluate, evaluated_spec, matched_spec, MatchedReason};
use crate::event::{kind_of, minted, target_of, DetectionContext, DetectionEvent, EventFactory, EventKind, FactoryView, SignalRecord};
use crate::input::{DetectionSnapshot, ScopeKey, ScopeKeyView};
use crate::metrics::{DetectionMetrics, NoopMetrics};
use crate::policy::{DetectionPolicy, ExecutionMode};
use crate::precedence::{lemma_winner_of, winner_of, PolicySet};
use crate::sink::{DetectionEventSink, NullSink};
use crate::state::{
    fresh_entry, law_step_follows_the_machine, lemma_step_signals, DetectionState, OutcomeView, ScopeState, Signal,
    StateTransition, StepIgnored, StepOutcome, TransitionReason, TransitionView,
};
use crate::table::{
    closed_expiry, default_table_config, due_for_sweep, expiry_keys, keys_ascending, lapse_reason, still_selected, table_step_with,
    Expiry, StateTable, StateTableConfig, TableView,
};

/// What one pass over the engine did.
#[derive(Debug, Clone, Copy, PartialEq, Eq, Structural)]
pub struct EngineReport {
    pub snapshots_seen: usize,
    /// Snapshots for which no policy applied: not an error, most scopes
    /// have no policy most of the time.
    pub unmatched: usize,
    pub ignored: usize,
    pub transitions: usize,
    pub suppressed: usize,
    pub events_built: usize,
    /// Events that reached the sink. An `Observe`-mode event is built but
    /// never published, so these two differ by design.
    pub events_published: usize,
    pub events_failed: usize,
    pub detections_opened: usize,
    pub detections_closed: usize,
}

/// A report of a pass that did nothing.
pub open spec fn empty_report() -> EngineReport {
    EngineReport {
        snapshots_seen: 0,
        unmatched: 0,
        ignored: 0,
        transitions: 0,
        suppressed: 0,
        events_built: 0,
        events_published: 0,
        events_failed: 0,
        detections_opened: 0,
        detections_closed: 0,
    }
}

impl Default for EngineReport {
    fn default() -> (r: EngineReport)
        ensures
            r == empty_report(),
    {
        EngineReport {
            snapshots_seen: 0,
            unmatched: 0,
            ignored: 0,
            transitions: 0,
            suppressed: 0,
            events_built: 0,
            events_published: 0,
            events_failed: 0,
            detections_opened: 0,
            detections_closed: 0,
        }
    }
}

/// `a + b`, stopping at `usize::MAX`.
pub open spec fn sat_sum(a: usize, b: usize) -> usize {
    if a + b > usize::MAX { usize::MAX } else { (a + b) as usize }
}

/// The two reports added field by field, each sum stopping at
/// `usize::MAX`.
pub open spec fn merged(a: EngineReport, b: EngineReport) -> EngineReport {
    EngineReport {
        snapshots_seen: sat_sum(a.snapshots_seen, b.snapshots_seen),
        unmatched: sat_sum(a.unmatched, b.unmatched),
        ignored: sat_sum(a.ignored, b.ignored),
        transitions: sat_sum(a.transitions, b.transitions),
        suppressed: sat_sum(a.suppressed, b.suppressed),
        events_built: sat_sum(a.events_built, b.events_built),
        events_published: sat_sum(a.events_published, b.events_published),
        events_failed: sat_sum(a.events_failed, b.events_failed),
        detections_opened: sat_sum(a.detections_opened, b.detections_opened),
        detections_closed: sat_sum(a.detections_closed, b.detections_closed),
    }
}

impl EngineReport {
    /// Adds `other` to this report, field by field.
    pub fn merge(&mut self, other: EngineReport)
        ensures
            *final(self) == merged(*old(self), other),
    {
        self.snapshots_seen = self.snapshots_seen.saturating_add(other.snapshots_seen);
        self.unmatched = self.unmatched.saturating_add(other.unmatched);
        self.ignored = self.ignored.saturating_add(other.ignored);
        self.transitions = self.transitions.saturating_add(other.transitions);
        self.suppressed = self.suppressed.saturating_add(other.suppressed);
        self.events_built = self.events_built.saturating_add(other.events_built);
        self.events_published = self.events_published.saturating_add(other.events_published);
        self.events_failed = self.events_failed.saturating_add(other.events_failed);
        self.detections_opened = self.detections_opened.saturating_add(other.detections_opened);
        self.detections_closed = self.detections_closed.saturating_add(other.detections_closed);
    }
}

/// How the threshold engine is bounded.
#[derive(Debug, Clone, Copy, PartialEq, Eq, Structural)]
pub struct EngineConfig {
    pub state: StateTableConfig,
}

impl Default for EngineConfig {
    fn default() -> (r: EngineConfig)
        ensures
            r.state == default_table_config(),
    {
        EngineConfig { state: StateTableConfig::default() }
    }
}

/// What a detection engine must be able to do. Implementations other
/// than fixed thresholds consume the same snapshots and produce the same
/// events.
pub trait DetectionEngine: Sized {
    /// Evaluating `snapshots` takes this engine to `after`, reporting `r`.
    spec fn evaluated_to(self, snapshots: Seq<DetectionSnapshot>, after: Self, r: EngineReport) -> bool;

    /// Sweeping at `now` (wall clock `wall`) takes this engine to
    /// `after`, reporting `r`.
    spec fn swept_to(self, now: u128, wall: i128, after: Self, r: EngineReport) -> bool;

    /// Feeds a batch of snapshots through selection, evaluation and the
    /// state machine, publishing whatever events result.
    /// Every snapshot given is counted as seen.
    fn evaluate(&mut self, snapshots: &[DetectionSnapshot]) -> (r: EngineReport)
        requires
            snapshots@.len() <= usize::MAX / 4,
        ensures
            r.snapshots_seen == snapshots@.len(),
            old(self).evaluated_to(snapshots@, *final(self), r),
    ;

    /// Reclaims idle scopes and closes detections whose data stopped
    /// arriving. It sees no snapshot and opens no detection.
    fn sweep(&mut self, now: u128, wall: i128) -> (r: EngineReport)
        ensures
            r.snapshots_seen == 0 && r.unmatched == 0 && r.ignored == 0 && r.suppressed == 0 && r.detections_opened == 0,
            old(self).swept_to(now, wall, *final(self), r),
    ;

    /// Swaps in a new policy set, closing detections whose policy no
    /// longer applies.
    fn replace_policies(&mut self, policies: PolicySet) -> EngineReport;

    /// How many detections are currently open.
    fn open_detections(&self) -> usize;
}

/// `v1` and `r` are what evaluating `snaps` does to an engine `v0`: the
/// table after the pass, its counts, the events it hands to the sink
/// with their numbers, and the open detections after it.
pub open spec fn evaluated_views(v0: EngineView, snaps: Seq<DetectionSnapshot>, v1: EngineView, r: EngineReport) -> bool {
    &&& v1.policies == v0.policies
    &&& v1.table == pass(v0.policies, v0.table, snaps).0
    &&& reports(r, pass(v0.policies, v0.table, snaps).1)
    &&& v1.factory.instance_id == v0.factory.instance_id
    &&& handed_pass(v0.handed, v1.handed, pass(v0.policies, v0.table, snaps).1.publishable)
    &&& v1.open == ledger(v0.policies, v0.table, v0.open, snaps).0
    &&& all_describe(v1.handed.subrange(v0.handed.len() as int, v1.handed.len() as int), ledger(v0.policies, v0.table, v0.open, snaps).1)
    &&& answers_split(v0.answers, v1.answers, v0.handed, v1.handed, r.events_published as int, r.events_failed as int)
}

/// `v1` and `r` are what a sweep at `now` does to an engine `v0`: the
/// scopes due are gone, the others kept, and the detections closed are
/// counted and their end events handed, numbered from the open records.
pub open spec fn swept_views(v0: EngineView, now: u128, wall: i128, v1: EngineView, r: EngineReport) -> bool {
    &&& v1.policies == v0.policies
    &&& v1.factory.instance_id == v0.factory.instance_id
    &&& swept_at(v0.table, v1.table, now)
    &&& r.snapshots_seen == 0 && r.unmatched == 0 && r.ignored == 0 && r.suppressed == 0 && r.detections_opened == 0
    &&& exists|x: Seq<Expiry>| #[trigger] swept_expiries(v0.table, x, now, wall)
        && closing_report(r, x, v0.policies)
        && handed_closings(v0.handed, v1.handed, closing_tally(x, v0.policies).handed, v0.policies)
        && v1.open == closing_ledger(v0.open, v0.policies, x).0
        && all_describe(v1.handed.subrange(v0.handed.len() as int, v1.handed.len() as int), closing_ledger(v0.open, v0.policies, x).1)
        && answers_split(v0.answers, v1.answers, v0.handed, v1.handed, r.events_published as int, r.events_failed - closing_tally(x, v0.policies).orphaned)
}

/// Counts kept by a pass, without bound.
pub struct Tally {
    pub seen: nat,
    pub unmatched: nat,
    pub ignored: nat,
    pub transitions: nat,
    pub suppressed: nat,
    pub built: nat,
    /// Events whose mode lets them reach a sink.
    pub publishable: nat,
    pub opened: nat,
    pub closed: nat,
}

pub open spec fn no_tally() -> Tally {
    Tally { seen: 0, unmatched: 0, ignored: 0, transitions: 0, suppressed: 0, built: 0, publishable: 0, opened: 0, closed: 0 }
}

/// How often `s` occurs in `sigs`.
pub open spec fn occurrences(sigs: Seq<Signal>, s: Signal) -> nat
    decreases sigs.len(),
{
    if sigs.len() == 0 {
        0
    } else {
        occurrences(sigs.drop_last(), s) + if sigs.last() == s { 1nat } else { 0nat }
    }
}

/// The table and outcome after `p`, evaluated on `snap`, is fed to the
/// state machine.
pub open spec fn judged(t: TableView, p: DetectionPolicy, snap: DetectionSnapshot) -> (TableView, OutcomeView) {
    let th = p.thresholds@;
    table_step_with(
        t,
        p,
        snap,
        matched_spec(th, snap.rates, snap.completeness),
        evaluated_spec(th, snap.completeness) > 0 && below_clear_spec(th, snap.rates, snap.completeness, p.clear_percent.value()),
    )
}

/// `y` with one judged snapshot counted: every signal becomes an event,
/// published unless the policy only observes.
pub open spec fn tallied(y: Tally, o: OutcomeView, p: DetectionPolicy) -> Tally {
    Tally {
        seen: y.seen + 1,
        unmatched: y.unmatched,
        ignored: y.ignored + if o.ignored is Some { 1nat } else { 0nat },
        transitions: y.transitions + o.transitions.len(),
        suppressed: y.suppressed + if o.suppressed is Some { 1nat } else { 0nat },
        built: y.built + o.signals.len(),
        publishable: y.publishable + if p.execution_mode.emits_events_spec() { o.signals.len() } else { 0nat },
        opened: y.opened + occurrences(o.signals, Signal::Started),
        closed: y.closed + occurrences(o.signals, Signal::Ended),
    }
}

/// The table and counts after `snaps`, in order, each judged by the
/// policy that wins its scope among `ps`; a snapshot no policy wins is
/// only counted.
pub open spec fn pass(ps: Seq<DetectionPolicy>, t: TableView, snaps: Seq<DetectionSnapshot>) -> (TableView, Tally)
    decreases snaps.len(),
{
    if snaps.len() == 0 {
        (t, no_tally())
    } else {
        let (t1, y) = pass(ps, t, snaps.drop_last());
        let s = snaps.last();
        match winner_of(ps, s.key@) {
            None => (t1, Tally { seen: y.seen + 1, unmatched: y.unmatched + 1, ..y }),
            Some(p) => {
                let (t2, o) = judged(t1, p, s);
                (t2, tallied(y, o, p))
            },
        }
    }
}

/// `r` states the counts `y`; what was published and what failed
/// together make up what was publishable.
pub open spec fn reports(r: EngineReport, y: Tally) -> bool {
    &&& r.snapshots_seen == y.seen
    &&& r.unmatched == y.unmatched
    &&& r.ignored == y.ignored
    &&& r.transitions == y.transitions
    &&& r.suppressed == y.suppressed
    &&& r.events_built == y.built
    &&& r.events_published + r.events_failed == y.publishable
    &&& r.detections_opened == y.opened
    &&& r.detections_closed == y.closed
}

/// A pass over `a` then `b` leaves the table a pass over `b` leaves,
/// starting from where the pass over `a` left it.
pub proof fn lemma_pass_concat(ps: Seq<DetectionPolicy>, t: TableView, a: Seq<DetectionSnapshot>, b: Seq<DetectionSnapshot>)
    ensures
        pass(ps, t, a + b).0 == pass(ps, pass(ps, t, a).0, b).0,
    decreases b.len(),
{
    if b.len() == 0 {
        assert(a + b =~= a);
    } else {
        assert((a + b).drop_last() =~= a + b.drop_last());
        assert((a + b).last() == b.last());
        lemma_pass_concat(ps, t, a, b.drop_last());
    }
}

/// A pass sees every snapshot once.
proof fn lemma_pass_seen(ps: Seq<DetectionPolicy>, t: TableView, snaps: Seq<DetectionSnapshot>)
    ensures
        pass(ps, t, snaps).1.seen == snaps.len(),
    decreases snaps.len(),
{
    if snaps.len() > 0 {
        lemma_pass_seen(ps, t, snaps.drop_last());
    }
}

/// Every count is at most twice the snapshots seen.
pub open spec fn bounded(y: Tally) -> bool {
    &&& y.unmatched <= y.seen
    &&& y.ignored <= y.seen
    &&& y.suppressed <= y.seen
    &&& y.transitions <= 2 * y.seen
    &&& y.built <= 2 * y.seen
    &&& y.publishable <= y.built
    &&& y.opened <= y.built
    &&& y.closed <= y.built
}

proof fn lemma_occurrences(sigs: Seq<Signal>, s: Signal)
    ensures
        occurrences(sigs, s) <= sigs.len(),
        s != Signal::Started ==> occurrences(sigs, Signal::Started) + occurrences(sigs, s) <= sigs.len(),
    decreases sigs.len(),
{
    if sigs.len() > 0 {
        lemma_occurrences(sigs.drop_last(), s);
    }
}

/// The engine's open detections as values: each scope's key with the
/// sequence number its next event takes.
spec fn open_view(v: Seq<OpenDetection>) -> Seq<(ScopeKeyView, u64)> {
    v.map_values(|o: OpenDetection| (o.key@, o.next_sequence))
}

/// Where the first open detection of `k` stands in `open`, if any.
pub open spec fn first_open(open: Seq<(ScopeKeyView, u64)>, k: ScopeKeyView) -> Option<int> {
    if exists|i: int| 0 <= i < open.len() && #[trigger] open[i].0 == k {
        Some(choose|i: int| 0 <= i < open.len() && #[trigger] open[i].0 == k && forall|j: int| 0 <= j < i ==> open[j].0 != k)
    } else {
        None
    }
}

/// The open detections after one signal for scope `k`, and the sequence
/// number of the event it raises: a start (re)opens the detection, its
/// event numbered zero and the next one; an update takes the next number
/// and moves it on (stopping at its maximum); an end takes the next
/// number and forgets the detection. A scope with no open detection
/// numbers its update or end zero.
pub open spec fn open_step(open: Seq<(ScopeKeyView, u64)>, k: ScopeKeyView, signal: Signal) -> (Seq<(ScopeKeyView, u64)>, u64) {
    match signal {
        Signal::Started => match first_open(open, k) {
            Some(i) => (open.update(i, (k, 1u64)), 0u64),
            None => (open.push((k, 1u64)), 0u64),
        },
        Signal::Updated => match first_open(open, k) {
            Some(i) => (open.update(i, (k, if open[i].1 == u64::MAX { u64::MAX } else { (open[i].1 + 1) as u64 })), open[i].1),
            None => (open, 0u64),
        },
        Signal::Ended => match first_open(open, k) {
            Some(i) => (open.remove(i), open[i].1),
            None => (open, 0u64),
        },
    }
}

/// The open detections after the signals `sigs` for scope `k`, in order,
/// and the kind and number of the event each raises.
pub open spec fn signals_ledger(open: Seq<(ScopeKeyView, u64)>, k: ScopeKeyView, sigs: Seq<Signal>) -> (Seq<(ScopeKeyView, u64)>, Seq<(ScopeKeyView, EventKind, u64)>)
    decreases sigs.len(),
{
    if sigs.len() == 0 {
        (open, Seq::empty())
    } else {
        let (o1, evs) = signals_ledger(open, k, sigs.drop_last());
        let (o2, n) = open_step(o1, k, sigs.last());
        (o2, evs.push((k, kind_of(sigs.last()), n)))
    }
}

/// The open detections after a pass over `snaps` with policies `ps` from
/// table `t`, and the scope, kind and number of every event the pass
/// hands to a sink, in order: each signal of each judged snapshot moves
/// the open detections, and its event is handed when the winning
/// policy's mode publishes.
pub open spec fn ledger(ps: Seq<DetectionPolicy>, t: TableView, open: Seq<(ScopeKeyView, u64)>, snaps: Seq<DetectionSnapshot>) -> (Seq<(ScopeKeyView, u64)>, Seq<(ScopeKeyView, EventKind, u64)>)
    decreases snaps.len(),
{
    if snaps.len() == 0 {
        (open, Seq::empty())
    } else {
        let (o1, evs) = ledger(ps, t, open, snaps.drop_last());
        let t1 = pass(ps, t, snaps.drop_last()).0;
        let s = snaps.last();
        match winner_of(ps, s.key@) {
            None => (o1, evs),
            Some(p) => {
                let (o2, new) = signals_ledger(o1, s.key@, judged(t1, p, s).1.signals);
                (o2, if p.execution_mode.emits_events_spec() { evs + new } else { evs })
            },
        }
    }
}

/// Event `e` is about scope `k`, of kind `kind`, numbered `n`.
pub open spec fn describes(e: DetectionEvent, entry: (ScopeKeyView, EventKind, u64)) -> bool {
    &&& target_of(e.target, entry.0)
    &&& e.kind == entry.1
    &&& e.sequence == entry.2
}

/// Each event of `es` is the one `entries` lists at its place.
pub open spec fn all_describe(es: Seq<DetectionEvent>, entries: Seq<(ScopeKeyView, EventKind, u64)>) -> bool {
    &&& es.len() == entries.len()
    &&& forall|i: int| 0 <= i < es.len() ==> describes(#[trigger] es[i], entries[i])
}

/// A judged snapshot records at most two transitions and raises at most
/// two signals.
proof fn lemma_judged_bounds(t: TableView, p: DetectionPolicy, snap: DetectionSnapshot)
    ensures
        judged(t, p, snap).1.transitions.len() <= 2,
        judged(t, p, snap).1.signals.len() <= 2,
{
    let k = snap.key@;
    let now = snap.observed_at;
    let th = p.thresholds@;
    let matched = matched_spec(th, snap.rates, snap.completeness);
    let below = evaluated_spec(th, snap.completeness) > 0 && below_clear_spec(th, snap.rates, snap.completeness, p.clear_percent.value());
    let entry = if t.entries.dom().contains(k) { t.entries[k] } else { fresh_entry(k, p, now) };
    law_step_follows_the_machine(entry, p, now, snap.observed_wall, matched.len() > 0, below, matched);
    lemma_step_signals(entry, p, now, snap.observed_wall, matched.len() > 0, below, matched);
}

/// `t1` is `t0` after a sweep at `now`: the scopes due at `now` are
/// gone, every other one is as it was.
pub open spec fn swept_at(t0: TableView, t1: TableView, now: u128) -> bool {
    &&& t1.config == t0.config
    &&& forall|k| #[trigger] t1.entries.dom().contains(k) <==> (t0.entries.dom().contains(k)
        && !due_for_sweep(t0.entries[k], t0.config, now))
    &&& forall|k| #[trigger] t1.entries.dom().contains(k) ==> t1.entries[k] == t0.entries[k]
}

/// What the engine remembers of an open detection besides the table.
struct OpenDetection {
    key: ScopeKey,
    started_wall: i128,
    next_sequence: u64,
}

/// Where the first open detection of `key` stands, if any.
fn find_open(open: &Vec<OpenDetection>, key: &ScopeKey) -> (r: Option<usize>)
    ensures
        r matches Some(i) ==> i < open@.len() && open@[i as int].key@ == key@
            && forall|j: int| 0 <= j < i ==> #[trigger] open@[j].key@ != key@,
        r is None ==> forall|j: int| 0 <= j < open@.len() ==> #[trigger] open@[j].key@ != key@,
{
    let mut i: usize = 0;
    while i < open.len()
        invariant
            i <= open@.len(),
            forall|j: int| 0 <= j < i ==> #[trigger] open@[j].key@ != key@,
        decreases open@.len() - i,
    {
        if open[i].key.same_as(key) {
            return Some(i);
        }
        i = i + 1;
    }
    None
}

fn copy_reasons(v: &Vec<MatchedReason>) -> (r: Vec<MatchedReason>)
    ensures
        r@ == v@,
{
    let mut out: Vec<MatchedReason> = Vec::new();
    let mut i: usize = 0;
    while i < v.len()
        invariant
            i <= v@.len(),
            out@ == v@.subrange(0, i as int),
        decreases v@.len() - i,
    {
        out.push(v[i]);
        proof {
            assert(v@.subrange(0, i + 1) =~= v@.subrange(0, i as int).push(v@[i as int]));
        }
        i = i + 1;
    }
    proof {
        assert(v@.subrange(0, v@.len() as int) =~= v@);
    }
    out
}

fn copy_transition(t: &StateTransition) -> (r: StateTransition)
    ensures
        r@ == t@,
{
    StateTransition {
        key: t.key.duplicate(),
        policy_id: t.policy_id.clone(),
        policy_version: t.policy_version,
        from: t.from,
        to: t.to,
        reason: t.reason,
        at: t.at,
        at_wall: t.at_wall,
        matched: copy_reasons(&t.matched),
        time_in_previous: t.time_in_previous,
    }
}

/// Whether `t` ends in `to`, or ends a detection when `to` is `Idle`:
/// lands in `Idle` or `Cooldown`.
pub open spec fn ends_in(t: StateTransition, to: DetectionState) -> bool {
    if to == DetectionState::Idle {
        t.to == DetectionState::Idle || t.to == DetectionState::Cooldown
    } else {
        t.to == to
    }
}

/// The last of `ts` that ends in `to`, or that ends a detection when
/// `to` is `Idle`.
fn last_into(ts: &Vec<StateTransition>, to: DetectionState) -> (r: Option<usize>)
    ensures
        r matches Some(i) ==> i < ts@.len() && ends_in(ts@[i as int], to)
            && forall|j: int| i < j < ts@.len() ==> !ends_in(#[trigger] ts@[j], to),
        r is None ==> forall|j: int| 0 <= j < ts@.len() ==> !ends_in(#[trigger] ts@[j], to),
{
    let mut found: Option<usize> = None;
    let mut i: usize = 0;
    while i < ts.len()
        invariant
            i <= ts@.len(),
            found matches Some(j) ==> j < i && ends_in(ts@[j as int], to)
                && forall|k: int| j < k < i ==> !ends_in(#[trigger] ts@[k], to),
            found is None ==> forall|k: int| 0 <= k < i ==> !ends_in(#[trigger] ts@[k], to),
        decreases ts@.len() - i,
    {
        let hit = if to == DetectionState::Idle {
            ts[i].to == DetectionState::Idle || ts[i].to == DetectionState::Cooldown
        } else {
            ts[i].to == to
        };
        if hit {
            found = Some(i);
        }
        i = i + 1;
    }
    found
}

/// The scope standing where it is: the move an update event reports.
fn standing(key: &ScopeKey, policy: &DetectionPolicy, state: DetectionState, entered_at: u128, now: u128, wall: i128) -> (r: StateTransition)
    ensures
        r@ == (TransitionView {
            key: key@,
            policy_id: policy.id@,
            policy_version: policy.version,
            from: state,
            to: state,
            reason: TransitionReason::TriggerSustained,
            at: now,
            at_wall: wall,
            matched: Seq::empty(),
            time_in_previous: if now >= entered_at { (now - entered_at) as u128 } else { 0 },
        }),
{
    StateTransition {
        key: key.duplicate(),
        policy_id: policy.id.clone(),
        policy_version: policy.version,
        from: state,
        to: state,
        reason: TransitionReason::TriggerSustained,
        at: now,
        at_wall: wall,
        matched: Vec::new(),
        time_in_previous: if now >= entered_at { now - entered_at } else { 0 },
    }
}

/// The detection context of `entry`, if it is known: its start is when
/// it became active, or `fallback_start` when it never did or is not
/// known.
fn context_of(entry: Option<&ScopeState>, fallback_start: u128, started_wall: i128, sequence: u64) -> (r: DetectionContext)
    ensures
        r.started_wall == started_wall,
        r.sequence == sequence,
        r.started_at == match entry {
            Some(e) => match e.active_since {
                Some(t) => t,
                None => fallback_start,
            },
            None => fallback_start,
        },
        r.peak@ == match entry {
            Some(e) => e.peak_matched@,
            None => Seq::<MatchedReason>::empty(),
        },
        r.snapshots_in_detection == match entry {
            Some(e) => e.snapshots_in_detection,
            None => 0u64,
        },
{
    match entry {
        Some(e) => DetectionContext {
            started_at: match e.active_since {
                Some(t) => t,
                None => fallback_start,
            },
            started_wall,
            sequence,
            peak: copy_reasons(&e.peak_matched),
            snapshots_in_detection: e.snapshots_in_detection,
        },
        None => DetectionContext { started_at: fallback_start, started_wall, sequence, peak: Vec::new(), snapshots_in_detection: 0 },
    }
}

/// The move and detection one signal of a step is about, keeping the
/// engine's record of open detections: a start opens one at sequence
/// zero, an update takes the next sequence, an end takes the next and
/// forgets the detection. An end reads the detection as it stood before
/// the step, which may have reset it.
fn record_for(
    open: &mut Vec<OpenDetection>,
    before: &Option<ScopeState>,
    after: Option<&ScopeState>,
    signal: Signal,
    outcome: &StepOutcome,
    policy: &DetectionPolicy,
    snapshot: &DetectionSnapshot,
) -> (r: SignalRecord)
    ensures
        r.signal == signal,
        signal == Signal::Started ==> r.detection.sequence == 0,
        open_view(final(open)@) == open_step(open_view(old(open)@), snapshot.key@, signal).0,
        r.detection.sequence == open_step(open_view(old(open)@), snapshot.key@, signal).1,
{
    let ghost ov = open_view(open@);
    let ghost k = snapshot.key@;
    let now = snapshot.observed_at;
    let wall = snapshot.observed_wall;
    let slot = find_open(open, &snapshot.key);
    proof {
        match slot {
            Some(i) => {
                assert(ov[i as int].0 == k);
                let j = choose|j: int| 0 <= j < ov.len() && #[trigger] ov[j].0 == k && forall|m: int| 0 <= m < j ==> ov[m].0 != k;
                if j < i {
                    assert(open@[j].key@ != k);
                }
                if j > i {
                    assert(ov[i as int].0 != k);
                }
                assert(first_open(ov, k) == Some(i as int));
            },
            None => {
                assert forall|j: int| 0 <= j < ov.len() implies #[trigger] ov[j].0 != k by {
                    assert(open@[j].key@ != k);
                }
                assert(first_open(ov, k) is None);
            },
        }
    }
    match signal {
        Signal::Started => {
            let transition = match last_into(&outcome.transitions, DetectionState::Active) {
                Some(i) => copy_transition(&outcome.transitions[i]),
                None => standing(&snapshot.key, policy, DetectionState::Active, now, now, wall),
            };
            let entry = OpenDetection { key: snapshot.key.duplicate(), started_wall: transition.at_wall, next_sequence: 1 };
            match slot {
                Some(i) => {
                    open.set(i, entry);
                    proof {
                        assert(open_view(open@) =~= ov.update(i as int, (k, 1u64)));
                    }
                },
                None => {
                    open.push(entry);
                    proof {
                        assert(open_view(open@) =~= ov.push((k, 1u64)));
                    }
                },
            }
            let detection = context_of(after, now, transition.at_wall, 0);
            SignalRecord { signal, transition, detection }
        },
        Signal::Updated => {
            let (started_wall, sequence) = match slot {
                Some(i) => {
                    let s = open[i].next_sequence;
                    let w = open[i].started_wall;
                    let bumped = OpenDetection { key: snapshot.key.duplicate(), started_wall: w, next_sequence: s.saturating_add(1) };
                    open.set(i, bumped);
                    proof {
                        assert(open_view(open@) =~= ov.update(i as int, (k, if ov[i as int].1 == u64::MAX { u64::MAX } else { (ov[i as int].1 + 1) as u64 })));
                    }
                    (w, s)
                },
                None => (wall, 0),
            };
            let transition = match after {
                Some(e) => standing(&snapshot.key, policy, e.state, e.entered_at, now, wall),
                None => standing(&snapshot.key, policy, DetectionState::Active, now, now, wall),
            };
            let detection = context_of(after, now, started_wall, sequence);
            SignalRecord { signal, transition, detection }
        },
        Signal::Ended => {
            let (started_wall, sequence) = match slot {
                Some(i) => {
                    let s = open[i].next_sequence;
                    let w = open[i].started_wall;
                    open.remove(i);
                    proof {
                        assert(open_view(open@) =~= ov.remove(i as int));
                    }
                    (w, s)
                },
                None => (wall, 0),
            };
            let transition = match last_into(&outcome.transitions, DetectionState::Idle) {
                Some(i) => copy_transition(&outcome.transitions[i]),
                None => standing(&snapshot.key, policy, DetectionState::Idle, now, now, wall),
            };
            let detection = match before {
                Some(e) => context_of(Some(e), transition.at, started_wall, sequence),
                None => context_of(None, transition.at, started_wall, sequence),
            };
            SignalRecord { signal, transition, detection }
        },
    }
}

/// How many of `s` are `b`.
pub open spec fn count_answers(s: Seq<bool>, b: bool) -> nat
    decreases s.len(),
{
    if s.len() == 0 {
        0
    } else {
        count_answers(s.drop_last(), b) + if s.last() == b { 1nat } else { 0nat }
    }
}

/// `a1` is `a0` followed by the sink's answers to the events handed
/// between `h0` and `h1`, one each, of which `published` were accepted
/// and `refused` refused.
pub open spec fn answers_split(a0: Seq<bool>, a1: Seq<bool>, h0: Seq<DetectionEvent>, h1: Seq<DetectionEvent>, published: int, refused: int) -> bool {
    &&& a0.len() <= a1.len()
    &&& a1.len() - a0.len() == h1.len() - h0.len()
    &&& a1.subrange(0, a0.len() as int) == a0
    &&& published == count_answers(a1.subrange(a0.len() as int, a1.len() as int), true)
    &&& refused == count_answers(a1.subrange(a0.len() as int, a1.len() as int), false)
}

proof fn lemma_answers_push(a0: Seq<bool>, a: Seq<bool>, b: bool)
    requires
        a0.len() <= a.len(),
    ensures
        a.push(b).subrange(a0.len() as int, a.len() as int + 1) == a.subrange(a0.len() as int, a.len() as int).push(b),
        a.push(b).subrange(0, a0.len() as int) == a.subrange(0, a0.len() as int),
        count_answers(a.subrange(a0.len() as int, a.len() as int).push(b), true) == count_answers(a.subrange(a0.len() as int, a.len() as int), true) + if b { 1nat } else { 0nat },
        count_answers(a.subrange(a0.len() as int, a.len() as int).push(b), false) == count_answers(a.subrange(a0.len() as int, a.len() as int), false) + if b { 0nat } else { 1nat },
{
    let t = a.subrange(a0.len() as int, a.len() as int);
    assert(a.push(b).subrange(a0.len() as int, a.len() as int + 1) =~= t.push(b));
    assert(a.push(b).subrange(0, a0.len() as int) =~= a.subrange(0, a0.len() as int));
    assert(t.push(b).drop_last() =~= t);
}

/// Counts one built event and publishes it if its mode allows, noting
/// it among the events handed to the sink.
fn emit<S: DetectionEventSink, M: DetectionMetrics>(
    sink: &mut S,
    metrics: &mut M,
    handed: &mut Ghost<Seq<DetectionEvent>>,
    answers: &mut Ghost<Seq<bool>>,
    event: DetectionEvent,
    report: &mut EngineReport,
)
    requires
        old(report).events_built < usize::MAX,
        old(report).events_published + old(report).events_failed < usize::MAX,
        old(report).detections_opened < usize::MAX,
        old(report).detections_closed < usize::MAX,
    ensures
        *final(report) == (EngineReport {
            events_built: (old(report).events_built + 1) as usize,
            detections_opened: if event.kind == EventKind::Started { (old(report).detections_opened + 1) as usize } else { old(report).detections_opened },
            detections_closed: if event.kind == EventKind::Ended { (old(report).detections_closed + 1) as usize } else { old(report).detections_closed },
            events_published: final(report).events_published,
            events_failed: final(report).events_failed,
            ..*old(report)
        }),
        final(report).events_published + final(report).events_failed == old(report).events_published + old(report).events_failed
            + if event.execution_mode.emits_events_spec() { 1int } else { 0int },
        final(handed)@ == if event.execution_mode.emits_events_spec() { old(handed)@.push(event) } else { old(handed)@ },
        event.execution_mode.emits_events_spec() ==> {
            &&& final(answers)@ == old(answers)@.push(final(answers)@.last())
            &&& final(report).events_published == old(report).events_published + if final(answers)@.last() { 1int } else { 0int }
            &&& final(report).events_failed == old(report).events_failed + if final(answers)@.last() { 0int } else { 1int }
        },
        !event.execution_mode.emits_events_spec() ==> final(answers)@ == old(answers)@
            && final(report).events_published == old(report).events_published
            && final(report).events_failed == old(report).events_failed,
{
    report.events_built = report.events_built + 1;
    metrics.event_built(event.kind);
    match event.kind {
        EventKind::Started => {
            report.detections_opened = report.detections_opened + 1;
        },
        EventKind::Ended => {
            report.detections_closed = report.detections_closed + 1;
        },
        EventKind::Updated => {},
    }
    if !event.is_publishable() {
        return;
    }
    proof {
        handed@ = handed@.push(event);
    }
    let answer = sink.publish(&event);
    proof {
        answers@ = answers@.push(answer is Ok);
    }
    match answer {
        Ok(()) => {
            report.events_published = report.events_published + 1;
            metrics.event_published(event.kind);
        },
        Err(_) => {
            report.events_failed = report.events_failed + 1;
            let name = sink.name();
            metrics.event_failed(event.kind, name);
        },
    }
}

/// The threshold engine: fixed thresholds, hysteresis and the four
/// timers, publishing to `S`, counting into `M`, reading time from `C`.
pub struct ThresholdDetectionEngine<S, M, C> {
    policies: PolicySet,
    table: StateTable,
    factory: EventFactory,
    sink: S,
    metrics: M,
    clock: C,
    open: Vec<OpenDetection>,
    /// Every event handed to the sink, in order.
    handed: Ghost<Seq<DetectionEvent>>,
    /// The sink's answer to each handed event, in order: whether it
    /// accepted it.
    answers: Ghost<Seq<bool>>,
}

/// An engine as values: its policies, its state table and its event
/// factory.
pub struct EngineView {
    pub policies: Seq<DetectionPolicy>,
    pub table: TableView,
    pub factory: FactoryView,
    /// Every event handed to the sink so far, in order.
    pub handed: Seq<DetectionEvent>,
    /// The sink's answer to each handed event, in order: whether it
    /// accepted it.
    pub answers: Seq<bool>,
    /// The open detections: each scope's key with the number its next
    /// event takes.
    pub open: Seq<(ScopeKeyView, u64)>,
}

impl<S, M, C> View for ThresholdDetectionEngine<S, M, C> {
    type V = EngineView;

    closed spec fn view(&self) -> EngineView {
        EngineView { policies: self.policies@, table: self.table@, factory: self.factory@, handed: self.handed@, answers: self.answers@, open: open_view(self.open@) }
    }
}

impl ThresholdDetectionEngine<NullSink, NoopMetrics, SystemClock> {
    /// An engine with no policies that publishes nowhere and counts
    /// nothing; attach what a caller needs with the `with_` methods.
    pub fn new(config: EngineConfig) -> (r: ThresholdDetectionEngine<NullSink, NoopMetrics, SystemClock>)
        ensures
            r@.policies.len() == 0,
            r@.table == (TableView { config: config.state, entries: Map::empty(), stats: crate::table::no_stats() }),
            r@.factory.counter == 0,
            r@.handed.len() == 0,
            r@.answers.len() == 0,
    {
        ThresholdDetectionEngine {
            policies: PolicySet::new(),
            table: StateTable::new(config.state),
            factory: EventFactory::new(),
            sink: NullSink,
            metrics: NoopMetrics,
            clock: SystemClock::new(),
            open: Vec::new(),
            handed: Ghost(Seq::empty()),
            answers: Ghost(Seq::empty()),
        }
    }
}

impl<S: DetectionEventSink, M: DetectionMetrics, C: Clock> ThresholdDetectionEngine<S, M, C> {
    pub fn with_policies(self, policies: PolicySet) -> (r: ThresholdDetectionEngine<S, M, C>)
        ensures
            r@ == (EngineView { policies: policies@, ..self@ }),
    {
        ThresholdDetectionEngine { policies, ..self }
    }

    pub fn with_sink<S2: DetectionEventSink>(self, sink: S2) -> (r: ThresholdDetectionEngine<S2, M, C>)
        ensures
            r@ == self@,
    {
        ThresholdDetectionEngine {
            policies: self.policies,
            table: self.table,
            factory: self.factory,
            sink,
            metrics: self.metrics,
            clock: self.clock,
            open: self.open,
            handed: self.handed,
            answers: self.answers,
        }
    }

    pub fn with_metrics<M2: DetectionMetrics>(self, metrics: M2) -> (r: ThresholdDetectionEngine<S, M2, C>)
        ensures
            r@ == self@,
    {
        ThresholdDetectionEngine {
            policies: self.policies,
            table: self.table,
            factory: self.factory,
            sink: self.sink,
            metrics,
            clock: self.clock,
            open: self.open,
            handed: self.handed,
            answers: self.answers,
        }
    }

    pub fn with_clock<C2: Clock>(self, clock: C2) -> (r: ThresholdDetectionEngine<S, M, C2>)
        ensures
            r@ == self@,
    {
        ThresholdDetectionEngine {
            policies: self.policies,
            table: self.table,
            factory: self.factory,
            sink: self.sink,
            metrics: self.metrics,
            clock,
            open: self.open,
            handed: self.handed,
            answers: self.answers,
        }
    }

    /// An engine whose identifiers come from `factory`, so that a caller
    /// can know them in advance.
    pub fn with_event_factory(self, factory: EventFactory) -> (r: ThresholdDetectionEngine<S, M, C>)
        ensures
            r@ == (EngineView { factory: factory@, ..self@ }),
    {
        ThresholdDetectionEngine { factory, ..self }
    }

    pub fn policies(&self) -> (r: &PolicySet)
        ensures
            r@ == self@.policies,
    {
        &self.policies
    }

    pub fn state(&self) -> (r: &StateTable)
        ensures
            r@ == self@.table,
    {
        &self.table
    }

    /// The sink events are published to.
    pub closed spec fn sink_now(&self) -> S {
        self.sink
    }

    /// The metrics the engine counts into.
    pub closed spec fn metrics_now(&self) -> M {
        self.metrics
    }

    /// The clock the engine reads.
    pub closed spec fn clock_now(&self) -> C {
        self.clock
    }

    /// The sink events are published to.
    pub fn sink(&self) -> (r: &S)
        ensures
            *r == self.sink_now(),
    {
        &self.sink
    }

    /// The metrics the engine counts into.
    pub fn metrics(&self) -> (r: &M)
        ensures
            *r == self.metrics_now(),
    {
        &self.metrics
    }

    /// The metrics the engine counts into, for a caller that counts
    /// alongside it.
    pub fn metrics_mut(&mut self) -> (r: &mut M)
        ensures
            *r == old(self).metrics_now(),
            final(self).metrics_now() == *final(r),
            final(self)@ == old(self)@,
            final(self).sink_now() == old(self).sink_now(),
            final(self).clock_now() == old(self).clock_now(),
    {
        &mut self.metrics
    }

    /// The clock the engine reads, to move a test clock.
    pub fn clock_mut(&mut self) -> (r: &mut C)
        ensures
            *r == old(self).clock_now(),
            final(self).clock_now() == *final(r),
            final(self)@ == old(self)@,
            final(self).sink_now() == old(self).sink_now(),
            final(self).metrics_now() == old(self).metrics_now(),
    {
        &mut self.clock
    }

    /// Sweeps at the engine clock's current readings.
    pub fn sweep_now(&mut self) -> (r: EngineReport)
        ensures
            final(self)@.policies == old(self)@.policies,
            final(self)@.factory.instance_id == old(self)@.factory.instance_id,
            final(self)@.table.config == old(self)@.table.config,
            exists|now: u128| #[trigger] swept_at(old(self)@.table, final(self)@.table, now),
            r.snapshots_seen == 0 && r.unmatched == 0 && r.ignored == 0 && r.suppressed == 0 && r.detections_opened == 0,
            exists|x: Seq<Expiry>, now: u128, wall: i128| #[trigger] swept_expiries(old(self)@.table, x, now, wall)
                && closing_report(r, x, old(self)@.policies)
                && handed_closings(old(self)@.handed, final(self)@.handed, closing_tally(x, old(self)@.policies).handed, old(self)@.policies)
                && final(self)@.open == closing_ledger(old(self)@.open, old(self)@.policies, x).0
                && all_describe(
                    final(self)@.handed.subrange(old(self)@.handed.len() as int, final(self)@.handed.len() as int),
                    closing_ledger(old(self)@.open, old(self)@.policies, x).1,
                )
                && answers_split(old(self)@.answers, final(self)@.answers, old(self)@.handed, final(self)@.handed,
                    r.events_published as int, r.events_failed - closing_tally(x, old(self)@.policies).orphaned),
    {
        let now = self.clock.monotonic();
        let wall = self.clock.wall();
        let ghost t0 = self@.table;
        let r = self.sweep(now, wall);
        assert(swept_at(t0, self@.table, now));
        r
    }

    /// Reports how many scopes stand in each state.
    fn report_gauges(&mut self)
        ensures
            final(self)@ == old(self)@,
    {
        self.metrics.scopes_in_state(DetectionState::Idle, self.table.count_in(DetectionState::Idle));
        self.metrics.scopes_in_state(DetectionState::PendingTrigger, self.table.count_in(DetectionState::PendingTrigger));
        self.metrics.scopes_in_state(DetectionState::Active, self.table.count_in(DetectionState::Active));
        self.metrics.scopes_in_state(DetectionState::PendingClear, self.table.count_in(DetectionState::PendingClear));
        self.metrics.scopes_in_state(DetectionState::Cooldown, self.table.count_in(DetectionState::Cooldown));
    }
}

impl<S: DetectionEventSink, M: DetectionMetrics, C: Clock> DetectionEngine for ThresholdDetectionEngine<S, M, C> {
    open spec fn evaluated_to(self, snapshots: Seq<DetectionSnapshot>, after: Self, r: EngineReport) -> bool {
        evaluated_views(self@, snapshots, after@, r)
    }

    open spec fn swept_to(self, now: u128, wall: i128, after: Self, r: EngineReport) -> bool {
        swept_views(self@, now, wall, after@, r)
    }

    /// Each snapshot, in order, is judged by the policy that wins its
    /// scope; the table ends as [`pass`] says, and the report counts
    /// what the pass did.
    #[verifier::rlimit(60)]
    fn evaluate(&mut self, snapshots: &[DetectionSnapshot]) -> (r: EngineReport)
        ensures
            final(self)@.policies == old(self)@.policies,
            final(self)@.table == pass(old(self)@.policies, old(self)@.table, snapshots@).0,
            reports(r, pass(old(self)@.policies, old(self)@.table, snapshots@).1),
            final(self)@.factory.instance_id == old(self)@.factory.instance_id,
            handed_pass(old(self)@.handed, final(self)@.handed, pass(old(self)@.policies, old(self)@.table, snapshots@).1.publishable),
            final(self)@.open == ledger(old(self)@.policies, old(self)@.table, old(self)@.open, snapshots@).0,
            all_describe(
                final(self)@.handed.subrange(old(self)@.handed.len() as int, final(self)@.handed.len() as int),
                ledger(old(self)@.policies, old(self)@.table, old(self)@.open, snapshots@).1,
            ),
            evaluated_views(old(self)@, snapshots@, final(self)@, r),
            answers_split(old(self)@.answers, final(self)@.answers, old(self)@.handed, final(self)@.handed, r.events_published as int, r.events_failed as int),
    {
        let ghost h0 = self.handed@;
        let ghost a0 = self.answers@;
        let ghost o0 = open_view(self.open@);
        proof {
            assert(h0.subrange(0, h0.len() as int) =~= h0);
            assert(h0.subrange(h0.len() as int, h0.len() as int).len() == 0);
            assert(a0.subrange(0, a0.len() as int) =~= a0);
            assert(a0.subrange(a0.len() as int, a0.len() as int) =~= Seq::<bool>::empty());
        }
        let ordered = self.policies.iter();
        let ghost ps = self.policies@;
        let ghost t0 = self.table@;
        let ghost id0 = self.factory@.instance_id;
        let mut report = EngineReport::default();
        let mut i: usize = 0;
        while i < snapshots.len()
            invariant
                i <= snapshots@.len(),
                snapshots@.len() <= usize::MAX / 4,
                crate::precedence::ids_ascending(ps),
                self.policies@ == ps,
                self.factory@.instance_id == id0,
                self.table@ == pass(ps, t0, snapshots@.subrange(0, i as int)).0,
                reports(report, pass(ps, t0, snapshots@.subrange(0, i as int)).1),
                bounded(pass(ps, t0, snapshots@.subrange(0, i as int)).1),
                pass(ps, t0, snapshots@.subrange(0, i as int)).1.seen == i,
                handed_pass(h0, self.handed@, pass(ps, t0, snapshots@.subrange(0, i as int)).1.publishable),
                h0.len() <= self.handed@.len(),
                open_view(self.open@) == ledger(ps, t0, o0, snapshots@.subrange(0, i as int)).0,
                all_describe(self.handed@.subrange(h0.len() as int, self.handed@.len() as int), ledger(ps, t0, o0, snapshots@.subrange(0, i as int)).1),
                answers_split(a0, self.answers@, h0, self.handed@, report.events_published as int, report.events_failed as int),
            decreases snapshots@.len() - i,
        {
            let ghost sub = snapshots@.subrange(0, i as int);
            let ghost next = snapshots@.subrange(0, i + 1);
            proof {
                assert(next.drop_last() =~= sub);
                assert(next.last() == snapshots@[i as int]);
            }
            let ghost y = pass(ps, t0, sub).1;
            let ghost hi = self.handed@;
            let ghost ai = self.answers@;
            let ghost opn = self.open@;
            let ghost lg = ledger(ps, t0, o0, sub);
            let snapshot = &snapshots[i];
            self.metrics.snapshot_evaluated(snapshot.key.scope_type);
            let winner = self.policies.winner_for(&snapshot.key);
            proof {
                match winner {
                    Some(p) => lemma_winner_of(ps, snapshot.key@, Some(*p)),
                    None => lemma_winner_of(ps, snapshot.key@, None),
                }
            }
            match winner {
                None => {
                    report.snapshots_seen = report.snapshots_seen + 1;
                    report.unmatched = report.unmatched + 1;
                    self.metrics.snapshot_unmatched(snapshot.key.scope_type);
                },
                Some(policy) => {
                    let evaluation = evaluate(policy, snapshot);
                    let mut m: usize = 0;
                    while m < evaluation.skipped.len()
                        invariant
                            m <= evaluation.skipped@.len(),
                            self.policies@ == ps,
                            self.table@ == pass(ps, t0, sub).0,
                            self.factory@.instance_id == id0,
                            self.handed@ == hi,
                            self.answers@ == ai,
                            self.open@ == opn,
                        decreases evaluation.skipped@.len() - m,
                    {
                        self.metrics.metric_skipped();
                        m = m + 1;
                    }
                    let before = match self.table.get(&snapshot.key) {
                        Some(e) => Some(e.duplicate()),
                        None => None,
                    };
                    let ghost t1 = self.table@;
                    let outcome = self.table.step(policy, snapshot, &evaluation);
                    let ghost o = outcome@;
                    proof {
                        assert(o == judged(t1, *policy, *snapshot).1);
                        lemma_judged_bounds(t1, *policy, *snapshot);
                        lemma_occurrences(o.signals, Signal::Ended);
                    }
                    report.snapshots_seen = report.snapshots_seen + 1;
                    match outcome.ignored {
                        Some(reason) => {
                            report.ignored = report.ignored + 1;
                            self.metrics.snapshot_ignored(reason);
                            if reason == StepIgnored::TableFull {
                                self.metrics.state_table_full();
                            }
                        },
                        None => {},
                    }
                    match outcome.suppressed {
                        Some(suppression) => {
                            report.suppressed = report.suppressed + 1;
                            self.metrics.suppressed(suppression);
                        },
                        None => {},
                    }
                    let ghost rt = report;
                    let ghost t2 = self.table@;
                    let mut k: usize = 0;
                    while k < outcome.transitions.len()
                        invariant
                            k <= outcome.transitions@.len(),
                            report == (EngineReport { transitions: report.transitions, ..rt }),
                            rt.transitions == y.transitions,
                            self.policies@ == ps,
                            self.table@ == t2,
                            self.factory@.instance_id == id0,
                            outcome@ == o,
                            o.transitions.len() <= 2,
                            report.transitions == y.transitions + k,
                            y.transitions <= 2 * i,
                            i < usize::MAX / 4,
                            self.handed@ == hi,
                            self.answers@ == ai,
                            self.open@ == opn,
                        decreases outcome.transitions@.len() - k,
                    {
                        let t = &outcome.transitions[k];
                        self.metrics.transition(t.from, t.to, t.reason);
                        report.transitions = report.transitions + 1;
                        k = k + 1;
                    }
                    let ghost r0 = report;
                    let mut n: usize = 0;
                    while n < outcome.signals.len()
                        invariant
                            n <= outcome.signals@.len(),
                            outcome@ == o,
                            o.signals.len() <= 2,
                            o.signals.len() > 0 ==> policy.execution_mode != crate::policy::ExecutionMode::Disabled,
                            y.built <= 2 * i,
                            i < usize::MAX / 4,
                            r0.events_built == y.built,
                            r0.events_published + r0.events_failed == y.publishable,
                            r0.detections_opened == y.opened,
                            r0.detections_closed == y.closed,
                            y.publishable <= y.built,
                            y.opened <= y.built,
                            y.closed <= y.built,
                            report == (EngineReport {
                                events_built: report.events_built,
                                events_published: report.events_published,
                                events_failed: report.events_failed,
                                detections_opened: report.detections_opened,
                                detections_closed: report.detections_closed,
                                ..r0
                            }),
                            report.events_built == r0.events_built + n,
                            self.policies@ == ps,
                            self.table@ == t2,
                            report.events_published + report.events_failed == r0.events_published + r0.events_failed
                                + if policy.execution_mode.emits_events_spec() { n as int } else { 0int },
                            report.detections_opened == r0.detections_opened + occurrences(o.signals.subrange(0, n as int), Signal::Started),
                            report.detections_closed == r0.detections_closed + occurrences(o.signals.subrange(0, n as int), Signal::Ended),
                            self.factory@.instance_id == id0,
                            handed_pass(h0, hi, y.publishable),
                            self.handed@.len() == hi.len() + if policy.execution_mode.emits_events_spec() { n as int } else { 0int },
                            self.handed@.subrange(0, hi.len() as int) == hi,
                            pass_events(self.handed@.subrange(hi.len() as int, self.handed@.len() as int)),
                            h0.len() <= hi.len(),
                            answers_split(a0, self.answers@, h0, self.handed@, report.events_published as int, report.events_failed as int),
                            lg == ledger(ps, t0, o0, sub),
                            open_view(opn) == lg.0,
                            open_view(self.open@) == signals_ledger(lg.0, snapshot.key@, o.signals.subrange(0, n as int)).0,
                            all_describe(
                                self.handed@.subrange(h0.len() as int, self.handed@.len() as int),
                                lg.1 + if policy.execution_mode.emits_events_spec() {
                                    signals_ledger(lg.0, snapshot.key@, o.signals.subrange(0, n as int)).1
                                } else {
                                    Seq::empty()
                                },
                            ),
                        decreases outcome.signals@.len() - n,
                    {
                        proof {
                            assert(o.signals.subrange(0, n + 1).drop_last() =~= o.signals.subrange(0, n as int));
                            lemma_occurrences(o.signals.subrange(0, n as int), Signal::Ended);
                        }
                        let signal = outcome.signals[n];
                        let ghost before_sig = signals_ledger(lg.0, snapshot.key@, o.signals.subrange(0, n as int));
                        let ghost hb0 = self.handed@;
                        let record = record_for(&mut self.open, &before, self.table.get(&snapshot.key), signal, &outcome, policy, snapshot);
                        let built = self.factory.build(&record, policy, snapshot, &evaluation.matched, &evaluation.skipped);
                        let ghost hb = self.handed@;
                        match built {
                            Some(event) => {
                                proof {
                                    assert(event.sequence == record.detection.sequence);
                                    assert(event.execution_mode == policy.execution_mode);
                                }
                                proof {
                                    let x = (snapshot.key@, kind_of(signal), record.detection.sequence);
                                    assert(describes(event, x));
                                    assert(o.signals.subrange(0, n + 1).last() == signal);
                                    lemma_describe_push(hb, h0.len() as int, before_sig.1, lg.1, event, x,
                                        policy.execution_mode.emits_events_spec());
                                }
                                let ghost ab = self.answers@;
                                emit(&mut self.sink, &mut self.metrics, &mut self.handed, &mut self.answers, event, &mut report);
                                proof {
                                    if event.execution_mode.emits_events_spec() {
                                        lemma_answers_push(a0, ab, self.answers@.last());
                                    }
                                    if event.execution_mode.emits_events_spec() {
                                        assert(self.handed@.subrange(0, hi.len() as int) =~= hb.subrange(0, hi.len() as int));
                                        assert(self.handed@.subrange(hi.len() as int, self.handed@.len() as int) =~= hb.subrange(
                                            hi.len() as int,
                                            hb.len() as int,
                                        ).push(event));
                                    }
                                }
                            },
                            None => {},
                        }
                        n = n + 1;
                    }
                    proof {
                        assert(o.signals.subrange(0, o.signals.len() as int) =~= o.signals);
                        assert(winner_of(ps, snapshot.key@) == Some(*policy));
                        assert(judged(pass(ps, t0, sub).0, *policy, *snapshot).1 == o);
                        lemma_handed_extend(h0, hi, self.handed@, y.publishable,
                            if policy.execution_mode.emits_events_spec() { o.signals.len() } else { 0nat });
                    }
                },
            }
            i = i + 1;
        }
        proof {
            assert(snapshots@.subrange(0, snapshots@.len() as int) =~= snapshots@);
            lemma_pass_seen(ps, t0, snapshots@);
        }
        self.report_gauges();
        report
    }

    /// Reclaims idle scopes and closes the detections whose snapshots
    /// stopped arriving, with an end event read from the policy that
    /// opened them.
    fn sweep(&mut self, now: u128, wall: i128) -> (r: EngineReport)
        ensures
            final(self)@.policies == old(self)@.policies,
            final(self)@.factory.instance_id == old(self)@.factory.instance_id,
            final(self)@.table.config == old(self)@.table.config,
            forall|k| #[trigger] final(self)@.table.entries.dom().contains(k) <==> (old(self)@.table.entries.dom().contains(k)
                && !due_for_sweep(old(self)@.table.entries[k], old(self)@.table.config, now)),
            forall|k| #[trigger] final(self)@.table.entries.dom().contains(k) ==> final(self)@.table.entries[k] == old(self)@.table.entries[k],
            r.snapshots_seen == 0 && r.unmatched == 0 && r.ignored == 0 && r.suppressed == 0 && r.detections_opened == 0,
            exists|x: Seq<Expiry>| #[trigger] swept_expiries(old(self)@.table, x, now, wall)
                && closing_report(r, x, old(self)@.policies)
                && handed_closings(old(self)@.handed, final(self)@.handed, closing_tally(x, old(self)@.policies).handed, old(self)@.policies)
                && final(self)@.open == closing_ledger(old(self)@.open, old(self)@.policies, x).0
                && all_describe(
                    final(self)@.handed.subrange(old(self)@.handed.len() as int, final(self)@.handed.len() as int),
                    closing_ledger(old(self)@.open, old(self)@.policies, x).1,
                )
                && answers_split(old(self)@.answers, final(self)@.answers, old(self)@.handed, final(self)@.handed,
                    r.events_published as int, r.events_failed - closing_tally(x, old(self)@.policies).orphaned),
            swept_views(old(self)@, now, wall, final(self)@, r),
    {
        let ghost t0 = self@.table;
        let open_states = self.table.open_detections();
        let expiries = self.table.sweep(now, wall);
        assert(swept_expiries(t0, expiries@, now, wall));
        let ghost e1 = self@;
        let mut report = EngineReport::default();
        let mut i: usize = 0;
        while i < expiries.len()
            invariant
                i <= expiries@.len(),
                self@ == e1,
            decreases expiries@.len() - i,
        {
            if expiries[i].signal == Some(Signal::Ended) {
                self.metrics.detection_stale();
            }
            i = i + 1;
        }
        close_expired(&mut self.factory, &mut self.sink, &mut self.metrics, &mut self.open, &expiries, &open_states, &self.policies, wall, &mut self.handed, &mut self.answers, &mut report);
        self.report_gauges();
        assert(closing_report(report, expiries@, e1.policies));
        assert(handed_closings(e1.handed, self@.handed, closing_tally(expiries@, e1.policies).handed, e1.policies));
        assert(self@.open == closing_ledger(e1.open, e1.policies, expiries@).0);
        assert(answers_split(e1.answers, self@.answers, e1.handed, self@.handed, report.events_published as int,
            report.events_failed - closing_tally(expiries@, e1.policies).orphaned));
        report
    }

    /// Swaps in `policies`, closing each scope whose policy no longer
    /// wins it at the version it was judged under. End events read the
    /// policy from the outgoing set, which opened the detection.
    fn replace_policies(&mut self, policies: PolicySet) -> (r: EngineReport)
        ensures
            final(self)@.policies == policies@,
            final(self)@.factory.instance_id == old(self)@.factory.instance_id,
            final(self)@.table.config == old(self)@.table.config,
            forall|k| #[trigger] final(self)@.table.entries.dom().contains(k) <==> (old(self)@.table.entries.dom().contains(k)
                && still_selected(policies@, old(self)@.table.entries[k])),
            forall|k| #[trigger] final(self)@.table.entries.dom().contains(k) ==> final(self)@.table.entries[k] == old(self)@.table.entries[k],
            r.snapshots_seen == 0 && r.unmatched == 0 && r.ignored == 0 && r.suppressed == 0 && r.detections_opened == 0,
            exists|x: Seq<Expiry>, now: u128, wall: i128| #[trigger] withdrawn_expiries(old(self)@.table, policies@, x, now, wall)
                && closing_report(r, x, old(self)@.policies)
                && handed_closings(old(self)@.handed, final(self)@.handed, closing_tally(x, old(self)@.policies).handed, old(self)@.policies)
                && final(self)@.open == closing_ledger(old(self)@.open, old(self)@.policies, x).0
                && all_describe(
                    final(self)@.handed.subrange(old(self)@.handed.len() as int, final(self)@.handed.len() as int),
                    closing_ledger(old(self)@.open, old(self)@.policies, x).1,
                )
                && answers_split(old(self)@.answers, final(self)@.answers, old(self)@.handed, final(self)@.handed,
                    r.events_published as int, r.events_failed - closing_tally(x, old(self)@.policies).orphaned),
    {
        let ghost e0 = self@;
        let now = self.clock.monotonic();
        let wall = self.clock.wall();
        let open_states = self.table.open_detections();
        let mut outgoing = policies;
        std::mem::swap(&mut self.policies, &mut outgoing);
        let expiries = self.table.withdraw_stale_selection(now, wall, &self.policies);
        assert(withdrawn_expiries(e0.table, policies@, expiries@, now, wall));
        let mut report = EngineReport::default();
        close_expired(&mut self.factory, &mut self.sink, &mut self.metrics, &mut self.open, &expiries, &open_states, &outgoing, wall, &mut self.handed, &mut self.answers, &mut report);
        self.report_gauges();
        assert(closing_report(report, expiries@, e0.policies));
        assert(handed_closings(e0.handed, self@.handed, closing_tally(expiries@, e0.policies).handed, e0.policies));
        assert(self@.open == closing_ledger(e0.open, e0.policies, expiries@).0);
        assert(answers_split(e0.answers, self@.answers, e0.handed, self@.handed, report.events_published as int,
            report.events_failed - closing_tally(expiries@, e0.policies).orphaned));
        report
    }

    fn open_detections(&self) -> (r: usize)
        ensures
            r == self@.table.entries.dom().filter(|k: crate::input::ScopeKeyView| crate::state::is_open_spec(self@.table.entries[k].state)).len(),
    {
        let open = self.table.open_detections();
        proof {
            let t = self.table@;
            let v = crate::table::keys_of(crate::table::entry_views(open@));
            let f = t.entries.dom().filter(|k: crate::input::ScopeKeyView| crate::state::is_open_spec(t.entries[k].state));
            assert forall|k: crate::input::ScopeKeyView| #[trigger] v.contains(k) <==> f.contains(k) by {
                if v.contains(k) {
                    let m = choose|m: int| 0 <= m < v.len() && v[m] == k;
                    assert(v[m] == open@[m]@.key);
                }
            }
            assert(v.to_set() =~= f);
            v.unique_seq_to_set();
        }
        open.len()
    }
}

/// What closing a run of expiries counts: the moves to a closed
/// state, the end events built, and the events that reached a sink or
/// failed (a closed detection whose policy is gone counts as failed).
pub struct ClosingTally {
    pub transitions: nat,
    pub built: nat,
    pub delivered: nat,
    /// End events handed to the sink.
    pub handed: nat,
    /// Closings whose policy is gone, counted as failed events.
    pub orphaned: nat,
}

/// The execution mode of the policy called `id` among `ps`, if any.
pub open spec fn mode_of(ps: Seq<DetectionPolicy>, id: Seq<char>) -> Option<ExecutionMode> {
    if exists|i: int| 0 <= i < ps.len() && #[trigger] ps[i].id@ == id {
        Some(ps[choose|i: int| 0 <= i < ps.len() && #[trigger] ps[i].id@ == id].execution_mode)
    } else {
        None
    }
}

/// Whether an expiry closed a detection: it ended one with a move.
pub open spec fn closes(x: Expiry) -> bool {
    x.signal == Some(Signal::Ended) && x.transition is Some
}

/// The counts of closing `s` in order, with the policies `ps`: each
/// closing expiry is a move; it builds an end event when its policy is
/// known and not disabled, and that event reaches a sink when the mode
/// publishes; an unknown policy counts as a failed event.
pub open spec fn closing_tally(s: Seq<Expiry>, ps: Seq<DetectionPolicy>) -> ClosingTally
    decreases s.len(),
{
    if s.len() == 0 {
        ClosingTally { transitions: 0, built: 0, delivered: 0, handed: 0, orphaned: 0 }
    } else {
        let y = closing_tally(s.drop_last(), ps);
        let x = s.last();
        if !closes(x) {
            y
        } else {
            match mode_of(ps, x.transition->0.policy_id@) {
                None => ClosingTally { transitions: y.transitions + 1, delivered: y.delivered + 1, orphaned: y.orphaned + 1, ..y },
                Some(m) => if m == ExecutionMode::Disabled {
                    ClosingTally { transitions: y.transitions + 1, ..y }
                } else {
                    ClosingTally {
                        transitions: y.transitions + 1,
                        built: y.built + 1,
                        delivered: y.delivered + if m.emits_events_spec() { 1nat } else { 0nat },
                        handed: y.handed + if m.emits_events_spec() { 1nat } else { 0nat },
                        ..y
                    }
                },
            }
        }
    }
}

/// Every event of `new` ends a detection, under a mode that publishes,
/// for a policy of `ps`.
pub open spec fn closing_events(new: Seq<DetectionEvent>, ps: Seq<DetectionPolicy>) -> bool {
    forall|i: int| 0 <= i < new.len() ==> {
        &&& (#[trigger] new[i]).kind == EventKind::Ended
        &&& new[i].execution_mode.emits_events_spec()
        &&& exists|j: int| 0 <= j < ps.len() && #[trigger] ps[j].id@ == new[i].policy_id@
    }
}

/// `x` are the expiries a sweep of `t` at `now` gives: one per scope due,
/// in key order, each closing that scope as stale.
pub open spec fn swept_expiries(t: TableView, x: Seq<Expiry>, now: u128, wall: i128) -> bool {
    &&& keys_ascending(expiry_keys(x))
    &&& expiry_keys(x).no_duplicates()
    &&& forall|k| t.entries.dom().contains(k) && due_for_sweep(t.entries[k], t.config, now) ==> #[trigger] expiry_keys(x).contains(k)
    &&& forall|i: int| 0 <= i < x.len() ==> t.entries.dom().contains(#[trigger] x[i]@.key)
        && due_for_sweep(t.entries[x[i]@.key], t.config, now)
        && x[i]@ == closed_expiry(t.entries[x[i]@.key], TransitionReason::Stale, now, wall)
}

/// `x` are the expiries withdrawing from `t` the scopes that `ps` no
/// longer selects gives, each closing its scope for the reason `ps`
/// gives.
pub open spec fn withdrawn_expiries(t: TableView, ps: Seq<DetectionPolicy>, x: Seq<Expiry>, now: u128, wall: i128) -> bool {
    &&& expiry_keys(x).no_duplicates()
    &&& forall|i: int| 0 <= i < x.len() ==> t.entries.dom().contains(#[trigger] x[i]@.key)
        && !still_selected(ps, t.entries[x[i]@.key])
        && x[i]@ == closed_expiry(t.entries[x[i]@.key], lapse_reason(ps, x[i]@.key), now, wall)
}

/// `r` counts closing `x` under `ps`.
pub open spec fn closing_report(r: EngineReport, x: Seq<Expiry>, ps: Seq<DetectionPolicy>) -> bool {
    let c = closing_tally(x, ps);
    &&& r.transitions == c.transitions
    &&& r.events_built == c.built
    &&& r.detections_closed == c.built
    &&& r.events_published + r.events_failed == c.delivered
}

/// `h1` is `h0` followed by `n` end events for policies of `ps`.
pub open spec fn handed_closings(h0: Seq<DetectionEvent>, h1: Seq<DetectionEvent>, n: nat, ps: Seq<DetectionPolicy>) -> bool {
    &&& h1.len() == h0.len() + n
    &&& h1.subrange(0, h0.len() as int) == h0
    &&& closing_events(h1.subrange(h0.len() as int, h1.len() as int), ps)
}

/// Every event of `new` was published under a mode that publishes, and
/// one that starts a detection is its first, numbered zero.
pub open spec fn pass_events(new: Seq<DetectionEvent>) -> bool {
    forall|i: int| 0 <= i < new.len() ==> {
        &&& (#[trigger] new[i]).execution_mode.emits_events_spec()
        &&& new[i].kind == EventKind::Started ==> new[i].sequence == 0
    }
}

/// `h1` is `h0` followed by `n` events of a pass.
pub open spec fn handed_pass(h0: Seq<DetectionEvent>, h1: Seq<DetectionEvent>, n: nat) -> bool {
    &&& h1.len() == h0.len() + n
    &&& h1.subrange(0, h0.len() as int) == h0
    &&& pass_events(h1.subrange(h0.len() as int, h1.len() as int))
}

proof fn lemma_handed_extend(h0: Seq<DetectionEvent>, hi: Seq<DetectionEvent>, h1: Seq<DetectionEvent>, n: nat, m: nat)
    requires
        handed_pass(h0, hi, n),
        h1.len() == hi.len() + m,
        h1.subrange(0, hi.len() as int) == hi,
        pass_events(h1.subrange(hi.len() as int, h1.len() as int)),
    ensures
        handed_pass(h0, h1, n + m),
{
    assert(h1.subrange(0, h0.len() as int) =~= hi.subrange(0, h0.len() as int));
    let a = hi.subrange(h0.len() as int, hi.len() as int);
    let b = h1.subrange(hi.len() as int, h1.len() as int);
    let c = h1.subrange(h0.len() as int, h1.len() as int);
    assert forall|i: int| 0 <= i < c.len() implies {
        &&& (#[trigger] c[i]).execution_mode.emits_events_spec()
        &&& c[i].kind == EventKind::Started ==> c[i].sequence == 0
    } by {
        if i < a.len() {
            assert(c[i] == a[i]);
        } else {
            assert(c[i] == b[i - a.len()]);
        }
    }
}

proof fn lemma_describe_push(
    h: Seq<DetectionEvent>,
    from: int,
    cur: Seq<(ScopeKeyView, EventKind, u64)>,
    base: Seq<(ScopeKeyView, EventKind, u64)>,
    e: DetectionEvent,
    x: (ScopeKeyView, EventKind, u64),
    emits: bool,
)
    requires
        0 <= from <= h.len(),
        all_describe(h.subrange(from, h.len() as int), base + if emits { cur } else { Seq::empty() }),
        describes(e, x),
    ensures
        emits ==> all_describe(h.push(e).subrange(from, h.len() as int + 1), base + cur.push(x)),
        !emits ==> all_describe(h.subrange(from, h.len() as int), base + Seq::<(ScopeKeyView, EventKind, u64)>::empty()),
{
    if emits {
        assert(h.push(e).subrange(from, h.len() as int + 1) =~= h.subrange(from, h.len() as int).push(e));
        assert(base + cur.push(x) =~= (base + cur).push(x));
    }
}

/// `f` after minting `n` events.
pub open spec fn minted_times(f: FactoryView, n: nat) -> FactoryView
    decreases n,
{
    if n == 0 { f } else { minted(minted_times(f, (n - 1) as nat)) }
}

proof fn lemma_minted_times_keeps_instance(f: FactoryView, n: nat)
    ensures
        minted_times(f, n).instance_id == f.instance_id,
    decreases n,
{
    if n > 0 {
        lemma_minted_times_keeps_instance(f, (n - 1) as nat);
    }
}

proof fn lemma_closing_tally_bounded(s: Seq<Expiry>, ps: Seq<DetectionPolicy>)
    ensures
        closing_tally(s, ps).transitions <= s.len(),
        closing_tally(s, ps).built <= closing_tally(s, ps).transitions,
        closing_tally(s, ps).delivered <= closing_tally(s, ps).transitions,
    decreases s.len(),
{
    if s.len() > 0 {
        lemma_closing_tally_bounded(s.drop_last(), ps);
    }
}

/// Turns the closing expiries of a sweep or a policy swap into end
/// events, reading each detection from `open_states`, taken before the
/// table closed it, and its policy from `policies`, the set in force when
/// it was open. A closed detection whose policy is gone builds no event,
/// since its severity and labels are no longer known; it counts as a
/// failed event.
fn close_expired<S: DetectionEventSink, M: DetectionMetrics>(
    factory: &mut EventFactory,
    sink: &mut S,
    metrics: &mut M,
    open: &mut Vec<OpenDetection>,
    expiries: &Vec<Expiry>,
    open_states: &Vec<ScopeState>,
    policies: &PolicySet,
    wall: i128,
    handed: &mut Ghost<Seq<DetectionEvent>>,
    answers: &mut Ghost<Seq<bool>>,
    report: &mut EngineReport,
)
    requires
        *old(report) == empty_report(),
    ensures
        final(report).snapshots_seen == 0 && final(report).unmatched == 0 && final(report).ignored == 0,
        final(report).suppressed == 0 && final(report).detections_opened == 0,
        final(report).transitions == closing_tally(expiries@, policies@).transitions,
        final(report).events_built == closing_tally(expiries@, policies@).built,
        final(report).detections_closed == closing_tally(expiries@, policies@).built,
        final(report).events_published + final(report).events_failed == closing_tally(expiries@, policies@).delivered,
        final(factory)@ == minted_times(old(factory)@, closing_tally(expiries@, policies@).built),
        final(factory)@.instance_id == old(factory)@.instance_id,
        final(handed)@.len() == old(handed)@.len() + closing_tally(expiries@, policies@).handed,
        final(handed)@.subrange(0, old(handed)@.len() as int) == old(handed)@,
        closing_events(final(handed)@.subrange(old(handed)@.len() as int, final(handed)@.len() as int), policies@),
        open_view(final(open)@) == closing_ledger(open_view(old(open)@), policies@, expiries@).0,
        all_describe(final(handed)@.subrange(old(handed)@.len() as int, final(handed)@.len() as int), closing_ledger(open_view(old(open)@), policies@, expiries@).1),
        answers_split(old(answers)@, final(answers)@, old(handed)@, final(handed)@, final(report).events_published as int,
            final(report).events_failed - closing_tally(expiries@, policies@).orphaned),
{
    let ghost ps = policies@;
    let ghost h0 = handed@;
    let ghost a0 = answers@;
    proof {
        assert(a0.subrange(0, a0.len() as int) =~= a0);
        assert(a0.subrange(a0.len() as int, a0.len() as int) =~= Seq::<bool>::empty());
    }
    let ghost o0 = open_view(open@);
    let ghost f0 = factory@;
    let mut i: usize = 0;
    proof {
        assert(expiries@.subrange(0, 0) =~= Seq::<Expiry>::empty());
    }
    while i < expiries.len()
        invariant
            i <= expiries@.len(),
            ps == policies@,
            report.snapshots_seen == 0 && report.unmatched == 0 && report.ignored == 0,
            report.suppressed == 0 && report.detections_opened == 0,
            report.transitions == closing_tally(expiries@.subrange(0, i as int), ps).transitions,
            report.events_built == closing_tally(expiries@.subrange(0, i as int), ps).built,
            report.detections_closed == closing_tally(expiries@.subrange(0, i as int), ps).built,
            report.events_published + report.events_failed == closing_tally(expiries@.subrange(0, i as int), ps).delivered,
            factory@ == minted_times(f0, closing_tally(expiries@.subrange(0, i as int), ps).built),
            handed@.len() == h0.len() + closing_tally(expiries@.subrange(0, i as int), ps).handed,
            handed@.subrange(0, h0.len() as int) == h0,
            closing_events(handed@.subrange(h0.len() as int, handed@.len() as int), ps),
            open_view(open@) == closing_ledger(o0, ps, expiries@.subrange(0, i as int)).0,
            all_describe(handed@.subrange(h0.len() as int, handed@.len() as int), closing_ledger(o0, ps, expiries@.subrange(0, i as int)).1),
            answers_split(a0, answers@, h0, handed@, report.events_published as int,
                report.events_failed - closing_tally(expiries@.subrange(0, i as int), ps).orphaned),
        decreases expiries@.len() - i,
    {
        let ghost done = expiries@.subrange(0, i as int);
        let ghost next = expiries@.subrange(0, i + 1);
        proof {
            assert(next.drop_last() =~= done);
            assert(next.last() == expiries@[i as int]);
            lemma_closing_tally_bounded(done, ps);
        }
        let expiry = &expiries[i];
        if expiry.signal == Some(Signal::Ended) {
            match &expiry.transition {
                Some(transition) => {
                    report.transitions = report.transitions + 1;
                    metrics.transition(transition.from, transition.to, transition.reason);
                    match policies.get(transition.policy_id.as_str()) {
                        None => {
                            report.events_failed = report.events_failed + 1;
                            proof {
                                assert(mode_of(ps, transition.policy_id@) is None);
                            }
                        },
                        Some(policy) => {
                            proof {
                                let k = choose|k: int| 0 <= k < ps.len() && #[trigger] ps[k].id@ == transition.policy_id@;
                                let j = choose|j: int| 0 <= j < ps.len() && ps[j] == *policy;
                                assert(ps[j].id@ == transition.policy_id@);
                                assert(ps[k] == *policy);
                                assert(mode_of(ps, transition.policy_id@) == Some(policy.execution_mode));
                            }
                            let mut state: Option<&ScopeState> = None;
                            let mut j: usize = 0;
                            while j < open_states.len()
                                invariant
                                    j <= open_states@.len(),
                                decreases open_states@.len() - j,
                            {
                                if open_states[j].key.same_as(&expiry.key) {
                                    state = Some(&open_states[j]);
                                }
                                j = j + 1;
                            }
                            let (started_wall, sequence) = close_open(open, &expiry.key, transition.at_wall);
                            let record = SignalRecord {
                                signal: Signal::Ended,
                                transition: copy_transition(transition),
                                detection: context_of(state, transition.at, started_wall, sequence),
                            };
                            let ghost hb = handed@;
                            let ghost lg = closing_ledger(o0, ps, done);
                            match factory.build_closing(&record, policy, wall) {
                                Some(event) => {
                                    proof {
                                        let xe = (transition.key@, EventKind::Ended, sequence);
                                        assert(record.transition@.key == transition.key@);
                                        assert(describes(event, xe));
                                        lemma_describe_push(hb, h0.len() as int, Seq::empty(), lg.1, event, xe, false);
                                        if event.execution_mode.emits_events_spec() {
                                            assert(hb.push(event).subrange(h0.len() as int, hb.len() as int + 1) =~= hb.subrange(
                                                h0.len() as int,
                                                hb.len() as int,
                                            ).push(event));
                                            assert(lg.1 + Seq::<(ScopeKeyView, EventKind, u64)>::empty() =~= lg.1);
                                        }
                                        assert(event.policy_id@ == transition.policy_id@);
                                        let jj = choose|jj: int| 0 <= jj < ps.len() && ps[jj] == *policy;
                                        assert(ps[jj].id@ == event.policy_id@);
                                    }
                                    let ghost ab = answers@;
                                    emit(sink, metrics, handed, answers, event, report);
                                    proof {
                                        if event.execution_mode.emits_events_spec() {
                                            lemma_answers_push(a0, ab, answers@.last());
                                        }
                                        if event.execution_mode.emits_events_spec() {
                                            assert(handed@.subrange(0, h0.len() as int) =~= hb.subrange(0, h0.len() as int));
                                            assert(handed@.subrange(h0.len() as int, handed@.len() as int) =~= hb.subrange(
                                                h0.len() as int,
                                                hb.len() as int,
                                            ).push(event));
                                        }
                                    }
                                },
                                None => {},
                            }
                        },
                    }
                },
                None => {},
            }
        }
        i = i + 1;
    }
    proof {
        assert(expiries@.subrange(0, i as int) =~= expiries@);
        lemma_minted_times_keeps_instance(f0, closing_tally(expiries@, ps).built);
    }
}

/// Forgets the open detection of `key`, giving when it started and the
/// number of its end event; one that was not open started at
/// `fallback_wall` and its end is numbered zero.
fn close_open(open: &mut Vec<OpenDetection>, key: &ScopeKey, fallback_wall: i128) -> (r: (i128, u64))
    ensures
        open_view(final(open)@) == open_step(open_view(old(open)@), key@, Signal::Ended).0,
        r.1 == open_step(open_view(old(open)@), key@, Signal::Ended).1,
{
    let ghost ov = open_view(open@);
    let ghost k = key@;
    match find_open(open, key) {
        Some(i) => {
            proof {
                let j = choose|j: int| 0 <= j < ov.len() && #[trigger] ov[j].0 == k && forall|m: int| 0 <= m < j ==> ov[m].0 != k;
                assert(ov[i as int].0 == k);
                if j < i {
                    assert(open@[j].key@ != k);
                }
                assert(first_open(ov, k) == Some(i as int));
            }
            let s = open[i].next_sequence;
            let w = open[i].started_wall;
            open.remove(i);
            proof {
                assert(open_view(open@) =~= ov.remove(i as int));
            }
            (w, s)
        },
        None => {
            proof {
                assert forall|j: int| 0 <= j < ov.len() implies #[trigger] ov[j].0 != k by {
                    assert(open@[j].key@ != k);
                }
            }
            (fallback_wall, 0)
        },
    }
}

/// The open detections after closing `x` in order with the policies
/// `ps`, and the scope, kind and number of every end event handed to a
/// sink: a closing expiry whose policy is known forgets its scope's open
/// detection, and its end event is handed when the mode publishes.
pub open spec fn closing_ledger(open: Seq<(ScopeKeyView, u64)>, ps: Seq<DetectionPolicy>, x: Seq<Expiry>) -> (Seq<(ScopeKeyView, u64)>, Seq<(ScopeKeyView, EventKind, u64)>)
    decreases x.len(),
{
    if x.len() == 0 {
        (open, Seq::empty())
    } else {
        let (o1, evs) = closing_ledger(open, ps, x.drop_last());
        let e = x.last();
        if !closes(e) {
            (o1, evs)
        } else {
            match mode_of(ps, e.transition->0.policy_id@) {
                None => (o1, evs),
                Some(m) => {
                    let (o2, n) = open_step(o1, e.key@, Signal::Ended);
                    (o2, if m.emits_events_spec() { evs.push((e.transition->0.key@, EventKind::Ended, n)) } else { evs })
                },
            }
        }
    }
}

/// Runs `evaluate` and then `sweep`, merging both reports. Evaluating
/// first means a snapshot that arrives in the same cycle as the sweep
/// still counts, so a scope is never declared stale in the same breath
/// as the data proving it is not.
pub fn cycle<E: DetectionEngine>(engine: &mut E, snapshots: &[DetectionSnapshot], now: u128, wall: i128) -> (r: EngineReport)
    requires
        snapshots@.len() <= usize::MAX / 4,
    ensures
        exists|mid: E, evaluated: EngineReport, swept: EngineReport| {
            &&& #[trigger] old(engine).evaluated_to(snapshots@, mid, evaluated)
            &&& #[trigger] mid.swept_to(now, wall, *final(engine), swept)
            &&& merged(evaluated, swept) == r
            &&& evaluated.snapshots_seen == snapshots@.len()
            &&& swept.snapshots_seen == 0 && swept.unmatched == 0 && swept.ignored == 0
            &&& swept.suppressed == 0 && swept.detections_opened == 0
        },
        r.snapshots_seen == snapshots@.len(),
{
    let mut report = engine.evaluate(snapshots);
    let ghost evaluated = report;
    let ghost mid = *engine;
    let swept = engine.sweep(now, wall);
    report.merge(swept);
    assert(merged(evaluated, swept) == report);
    assert(old(engine).evaluated_to(snapshots@, mid, evaluated));
    assert(mid.swept_to(now, wall, *engine, swept));
    report
}

} // verus!
