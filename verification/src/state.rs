//! The detection state machine.
//!
//! A threshold comparison alone is not a detection. The crossing has to
//! persist (`triggerFor`), the recovery has to persist (`clearFor`), a
//! detection stays open for a minimum period once opened (`holdDown`),
//! and the same scope must not immediately re-open (`cooldown`). Every
//! transition records where it came from, where it went, why, under
//! which policy version, and what the traffic looked like.
//!
//! State lives in memory only; after a restart every scope begins at
//! [`DetectionState::Idle`]. Times are nanoseconds.

use vstd::prelude::*;

verus! {

use crate::evaluate::{Evaluation, MatchedReason};
use crate::input::{DetectionSnapshot, ScopeKey, ScopeKeyView};
use crate::policy::DetectionPolicy;
use crate::text::text_eq;

/// Where one scope stands under its winning policy.
#[derive(Debug, Clone, Copy, PartialEq, Eq, Hash, PartialOrd, Ord, Structural)]
pub enum DetectionState {
    /// Nothing is happening, and nothing recently was.
    Idle,
    /// Thresholds are being exceeded, but not yet for `triggerFor`.
    PendingTrigger,
    /// A detection is open.
    Active,
    /// An open detection has fallen to its clear level, but not yet for
    /// `clearFor`.
    PendingClear,
    /// A detection closed recently; new detections are suppressed until
    /// `cooldown` elapses.
    Cooldown,
}

/// A detection is open in `Active` and `PendingClear`.
pub open spec fn is_open_spec(s: DetectionState) -> bool {
    s == DetectionState::Active || s == DetectionState::PendingClear
}

/// The machine's edges: every state except `Idle` may reset to `Idle`,
/// plus the seven forward edges.
pub open spec fn legal_edge(from: DetectionState, to: DetectionState) -> bool {
    if to == DetectionState::Idle {
        from != DetectionState::Idle
    } else {
        ||| from == DetectionState::Idle && to == DetectionState::PendingTrigger
        ||| from == DetectionState::Idle && to == DetectionState::Active
        ||| from == DetectionState::PendingTrigger && to == DetectionState::Active
        ||| from == DetectionState::Active && to == DetectionState::PendingClear
        ||| from == DetectionState::Active && to == DetectionState::Cooldown
        ||| from == DetectionState::PendingClear && to == DetectionState::Active
        ||| from == DetectionState::PendingClear && to == DetectionState::Cooldown
    }
}

impl DetectionState {
    pub open spec fn name(self) -> Seq<char> {
        match self {
            DetectionState::Idle => "idle"@,
            DetectionState::PendingTrigger => "pendingTrigger"@,
            DetectionState::Active => "active"@,
            DetectionState::PendingClear => "pendingClear"@,
            DetectionState::Cooldown => "cooldown"@,
        }
    }

    pub fn as_str(&self) -> (r: &'static str)
        ensures
            r@ == self.name(),
    {
        match self {
            DetectionState::Idle => "idle",
            DetectionState::PendingTrigger => "pendingTrigger",
            DetectionState::Active => "active",
            DetectionState::PendingClear => "pendingClear",
            DetectionState::Cooldown => "cooldown",
        }
    }

    /// Whether a detection is open in this state.
    pub fn is_open(&self) -> (r: bool)
        ensures
            r == is_open_spec(*self),
    {
        matches!(self, DetectionState::Active | DetectionState::PendingClear)
    }

    /// Whether the machine may move from `self` to `next`.
    pub fn can_transition_to(&self, next: DetectionState) -> (r: bool)
        ensures
            r == legal_edge(*self, next),
    {
        if next == DetectionState::Idle {
            return *self != DetectionState::Idle;
        }
        match (*self, next) {
            (DetectionState::Idle, DetectionState::PendingTrigger) => true,
            (DetectionState::Idle, DetectionState::Active) => true,
            (DetectionState::PendingTrigger, DetectionState::Active) => true,
            (DetectionState::Active, DetectionState::PendingClear) => true,
            (DetectionState::Active, DetectionState::Cooldown) => true,
            (DetectionState::PendingClear, DetectionState::Active) => true,
            (DetectionState::PendingClear, DetectionState::Cooldown) => true,
            _ => false,
        }
    }
}

/// Why the machine moved; names the cause, never the destination.
#[derive(Debug, Clone, Copy, PartialEq, Eq, Hash, PartialOrd, Ord, Structural)]
pub enum TransitionReason {
    ThresholdCrossed,
    TriggerSustained,
    TriggerAborted,
    FellBelowClear,
    ClearSustained,
    ClearAborted,
    CooldownExpired,
    PolicyChanged,
    PolicyWithdrawn,
    Stale,
    ManualReset,
}

impl TransitionReason {
    pub open spec fn name(self) -> Seq<char> {
        match self {
            TransitionReason::ThresholdCrossed => "thresholdCrossed"@,
            TransitionReason::TriggerSustained => "triggerSustained"@,
            TransitionReason::TriggerAborted => "triggerAborted"@,
            TransitionReason::FellBelowClear => "fellBelowClear"@,
            TransitionReason::ClearSustained => "clearSustained"@,
            TransitionReason::ClearAborted => "clearAborted"@,
            TransitionReason::CooldownExpired => "cooldownExpired"@,
            TransitionReason::PolicyChanged => "policyChanged"@,
            TransitionReason::PolicyWithdrawn => "policyWithdrawn"@,
            TransitionReason::Stale => "stale"@,
            TransitionReason::ManualReset => "manualReset"@,
        }
    }

    pub fn as_str(&self) -> (r: &'static str)
        ensures
            r@ == self.name(),
    {
        match self {
            TransitionReason::ThresholdCrossed => "thresholdCrossed",
            TransitionReason::TriggerSustained => "triggerSustained",
            TransitionReason::TriggerAborted => "triggerAborted",
            TransitionReason::FellBelowClear => "fellBelowClear",
            TransitionReason::ClearSustained => "clearSustained",
            TransitionReason::ClearAborted => "clearAborted",
            TransitionReason::CooldownExpired => "cooldownExpired",
            TransitionReason::PolicyChanged => "policyChanged",
            TransitionReason::PolicyWithdrawn => "policyWithdrawn",
            TransitionReason::Stale => "stale",
            TransitionReason::ManualReset => "manualReset",
        }
    }
}

/// What the engine downstream should do about a step, in event terms.
#[derive(Debug, Clone, Copy, PartialEq, Eq, Hash, Structural)]
pub enum Signal {
    /// A detection opened.
    Started,
    /// An open detection is still open and an update is due.
    Updated,
    /// A detection closed.
    Ended,
}

/// Why a step did nothing.
#[derive(Debug, Clone, Copy, PartialEq, Eq, Hash, Structural)]
pub enum StepIgnored {
    WindowMismatch,
    OutOfOrder,
    Duplicate,
    TableFull,
    ModeDisabled,
}

impl StepIgnored {
    pub open spec fn name(self) -> Seq<char> {
        match self {
            StepIgnored::WindowMismatch => "windowMismatch"@,
            StepIgnored::OutOfOrder => "outOfOrder"@,
            StepIgnored::Duplicate => "duplicate"@,
            StepIgnored::TableFull => "tableFull"@,
            StepIgnored::ModeDisabled => "modeDisabled"@,
        }
    }

    pub fn as_str(&self) -> (r: &'static str)
        ensures
            r@ == self.name(),
    {
        match self {
            StepIgnored::WindowMismatch => "windowMismatch",
            StepIgnored::OutOfOrder => "outOfOrder",
            StepIgnored::Duplicate => "duplicate",
            StepIgnored::TableFull => "tableFull",
            StepIgnored::ModeDisabled => "modeDisabled",
        }
    }
}

/// A threshold crossing that deliberately produced no detection.
#[derive(Debug, Clone, Copy, PartialEq, Eq, Hash, Structural)]
pub enum Suppression {
    /// Crossed while in `cooldown`.
    Cooldown,
    /// Recovered while inside `holdDown`, so the detection stayed open.
    HoldDown,
}

impl Suppression {
    pub open spec fn name(self) -> Seq<char> {
        match self {
            Suppression::Cooldown => "cooldown"@,
            Suppression::HoldDown => "holdDown"@,
        }
    }

    pub fn as_str(&self) -> (r: &'static str)
        ensures
            r@ == self.name(),
    {
        match self {
            Suppression::Cooldown => "cooldown",
            Suppression::HoldDown => "holdDown",
        }
    }
}

/// One recorded move, carrying everything needed to explain it later.
#[derive(Debug, Clone, PartialEq, Eq)]
pub struct StateTransition {
    pub key: ScopeKey,
    pub policy_id: String,
    pub policy_version: u32,
    pub from: DetectionState,
    pub to: DetectionState,
    pub reason: TransitionReason,
    /// Monotonic instant, used for every duration comparison.
    pub at: u128,
    /// Wall clock, for display only.
    pub at_wall: i128,
    /// Thresholds crossed at this instant; empty for time-driven moves.
    pub matched: Vec<MatchedReason>,
    /// How long the machine had been in `from`.
    pub time_in_previous: u128,
}

pub struct TransitionView {
    pub key: ScopeKeyView,
    pub policy_id: Seq<char>,
    pub policy_version: u32,
    pub from: DetectionState,
    pub to: DetectionState,
    pub reason: TransitionReason,
    pub at: u128,
    pub at_wall: i128,
    pub matched: Seq<MatchedReason>,
    pub time_in_previous: u128,
}

impl View for StateTransition {
    type V = TransitionView;

    open spec fn view(&self) -> TransitionView {
        TransitionView {
            key: self.key@,
            policy_id: self.policy_id@,
            policy_version: self.policy_version,
            from: self.from,
            to: self.to,
            reason: self.reason,
            at: self.at,
            at_wall: self.at_wall,
            matched: self.matched@,
            time_in_previous: self.time_in_previous,
        }
    }
}

/// The result of feeding one snapshot to one scope.
#[derive(Debug, Clone, PartialEq, Eq, Default)]
pub struct StepOutcome {
    /// In order; at most two: a timer expiry followed by an
    /// evaluation-driven move, or a policy reset followed by one.
    pub transitions: Vec<StateTransition>,
    pub signals: Vec<Signal>,
    /// The state after the step, or `None` if the scope is not tracked.
    pub state: Option<DetectionState>,
    pub ignored: Option<StepIgnored>,
    pub suppressed: Option<Suppression>,
}

/// A [`StepOutcome`] as values.
pub struct OutcomeView {
    pub transitions: Seq<TransitionView>,
    pub signals: Seq<Signal>,
    pub state: Option<DetectionState>,
    pub ignored: Option<StepIgnored>,
    pub suppressed: Option<Suppression>,
}

impl View for StepOutcome {
    type V = OutcomeView;

    open spec fn view(&self) -> OutcomeView {
        OutcomeView {
            transitions: self.transitions_view(),
            signals: self.signals@,
            state: self.state,
            ignored: self.ignored,
            suppressed: self.suppressed,
        }
    }
}

/// A step that did nothing, for `reason`, with the scope in `state`.
pub open spec fn ignored_outcome(reason: StepIgnored, state: Option<DetectionState>) -> OutcomeView {
    OutcomeView { transitions: Seq::empty(), signals: Seq::empty(), state, ignored: Some(reason), suppressed: None }
}

impl StepOutcome {
    pub open spec fn transitions_view(self) -> Seq<TransitionView> {
        self.transitions@.map_values(|t: StateTransition| t@)
    }

    pub(crate) fn skipped(reason: StepIgnored, state: Option<DetectionState>) -> (r: StepOutcome)
        ensures
            r@ == ignored_outcome(reason, state),
    {
        let r = StepOutcome { transitions: Vec::new(), signals: Vec::new(), state, ignored: Some(reason), suppressed: None };
        assert(r.transitions_view() =~= Seq::<TransitionView>::empty());
        r
    }

    /// Whether the step opened, updated, or closed a detection.
    pub fn has_signals(&self) -> (r: bool)
        ensures
            r == (self.signals@.len() > 0),
    {
        self.signals.len() > 0
    }
}

/// Everything remembered about one scope between snapshots.
#[derive(Debug, Clone, PartialEq, Eq)]
pub struct ScopeState {
    pub key: ScopeKey,
    pub policy_id: String,
    pub policy_version: u32,
    pub state: DetectionState,
    /// When the machine entered `state`.
    pub entered_at: u128,
    /// When the current detection opened; `None` unless one is open.
    pub active_since: Option<u128>,
    /// Newest snapshot applied, or `None` until the first one is.
    pub last_snapshot_at: Option<u128>,
    pub last_snapshot_wall: Option<i128>,
    /// Last emitted event, for update pacing.
    pub last_event_at: Option<u128>,
    /// Thresholds crossed on the most recent evaluated snapshot.
    pub last_matched: Vec<MatchedReason>,
    /// Highest observed value per crossed metric during the current
    /// detection, in the order the metrics were first crossed.
    pub peak_matched: Vec<MatchedReason>,
    /// Snapshots applied since the detection opened.
    pub snapshots_in_detection: u64,
}

pub struct ScopeStateView {
    pub key: ScopeKeyView,
    pub policy_id: Seq<char>,
    pub policy_version: u32,
    pub state: DetectionState,
    pub entered_at: u128,
    pub active_since: Option<u128>,
    pub last_snapshot_at: Option<u128>,
    pub last_snapshot_wall: Option<i128>,
    pub last_event_at: Option<u128>,
    pub last_matched: Seq<MatchedReason>,
    pub peak_matched: Seq<MatchedReason>,
    pub snapshots_in_detection: u64,
}

impl View for ScopeState {
    type V = ScopeStateView;

    open spec fn view(&self) -> ScopeStateView {
        ScopeStateView {
            key: self.key@,
            policy_id: self.policy_id@,
            policy_version: self.policy_version,
            state: self.state,
            entered_at: self.entered_at,
            active_since: self.active_since,
            last_snapshot_at: self.last_snapshot_at,
            last_snapshot_wall: self.last_snapshot_wall,
            last_event_at: self.last_event_at,
            last_matched: self.last_matched@,
            peak_matched: self.peak_matched@,
            snapshots_in_detection: self.snapshots_in_detection,
        }
    }
}

/// `now - since`, or zero when `since` is later.
pub open spec fn elapsed(now: u128, since: u128) -> u128 {
    if now >= since { (now - since) as u128 } else { 0 }
}

/// Index of the first reason about `metric`, if any.
pub open spec fn metric_position(peaks: Seq<MatchedReason>, metric: crate::input::MetricKind) -> Option<int>
    decreases peaks.len(),
{
    if peaks.len() == 0 {
        None
    } else {
        match metric_position(peaks.drop_last(), metric) {
            Some(i) => Some(i),
            None => if peaks.last().metric == metric { Some(peaks.len() - 1) } else { None },
        }
    }
}

/// Folds one crossed threshold into the peaks: a higher observation of
/// a known metric replaces it, a new metric is appended.
pub open spec fn peak_with(peaks: Seq<MatchedReason>, r: MatchedReason) -> Seq<MatchedReason> {
    match metric_position(peaks, r.metric) {
        Some(i) => if r.observed > peaks[i].observed { peaks.update(i, r) } else { peaks },
        None => peaks.push(r),
    }
}

/// Folds every crossed threshold into the peaks, in order.
pub open spec fn peaks_after(peaks: Seq<MatchedReason>, matched: Seq<MatchedReason>) -> Seq<MatchedReason>
    decreases matched.len(),
{
    if matched.len() == 0 {
        peaks
    } else {
        peak_with(peaks_after(peaks, matched.drop_last()), matched.last())
    }
}

/// The entry and record after moving to `to`: the state and its entry
/// time change; entering `Active` without an open detection opens one
/// (start time set, count and peaks reset); entering `Idle` or
/// `Cooldown` closes it.
pub open spec fn moved(s: ScopeStateView, to: DetectionState, reason: TransitionReason, at: u128, wall: i128, matched: Seq<MatchedReason>) -> (ScopeStateView, TransitionView) {
    let opening = to == DetectionState::Active && s.active_since is None;
    let closing = to == DetectionState::Idle || to == DetectionState::Cooldown;
    let s2 = ScopeStateView {
        state: to,
        entered_at: at,
        active_since: if opening { Some(at) } else if closing { None } else { s.active_since },
        snapshots_in_detection: if opening { 0 } else { s.snapshots_in_detection },
        peak_matched: if opening { Seq::empty() } else { s.peak_matched },
        ..s
    };
    let t = TransitionView {
        key: s.key,
        policy_id: s.policy_id,
        policy_version: s.policy_version,
        from: s.state,
        to,
        reason,
        at,
        at_wall: wall,
        matched,
        time_in_previous: elapsed(at, s.entered_at),
    };
    (s2, t)
}

/// The running result of a step: the entry, the transitions recorded,
/// the signals raised, and any suppression.
pub struct StepAcc {
    pub s: ScopeStateView,
    pub ts: Seq<TransitionView>,
    pub sigs: Seq<Signal>,
    pub sup: Option<Suppression>,
}

/// Moves when the edge is legal, recording the transition; otherwise
/// leaves everything as it was.
pub open spec fn try_move(a: StepAcc, to: DetectionState, reason: TransitionReason, at: u128, wall: i128, matched: Seq<MatchedReason>) -> StepAcc {
    if legal_edge(a.s.state, to) {
        let (s2, t) = moved(a.s, to, reason, at, wall, matched);
        StepAcc { s: s2, ts: a.ts.push(t), ..a }
    } else {
        a
    }
}

/// Ends an open detection into `Cooldown`, or `Idle` with no cooldown,
/// raising `Ended`.
pub open spec fn close_spec(a: StepAcc, cooldown: u128, now: u128, wall: i128) -> StepAcc {
    let to = if cooldown == 0 { DetectionState::Idle } else { DetectionState::Cooldown };
    if legal_edge(a.s.state, to) {
        let m = try_move(a, to, TransitionReason::ClearSustained, now, wall, Seq::empty());
        StepAcc { s: ScopeStateView { last_event_at: Some(now), ..m.s }, sigs: m.sigs.push(Signal::Ended), ..m }
    } else {
        a
    }
}

/// Opens a detection (already moved to `Active`): peaks recorded, the
/// event time stamped, `Started` raised.
pub open spec fn started(m: StepAcc, now: u128, matched: Seq<MatchedReason>) -> StepAcc {
    StepAcc {
        s: ScopeStateView { peak_matched: peaks_after(m.s.peak_matched, matched), last_event_at: Some(now), ..m.s },
        sigs: m.sigs.push(Signal::Started),
        ..m
    }
}

/// A policy other than the one the entry was accumulated under resets
/// the machine to `Idle` (raising `Ended` if a detection was open) and
/// adopts the new policy with no event history and no peaks.
pub open spec fn policy_reset(a: StepAcc, p: DetectionPolicy, now: u128, wall: i128) -> StepAcc {
    if a.s.policy_id != p.id@ || a.s.policy_version != p.version {
        let was_open = is_open_spec(a.s.state);
        let m = try_move(a, DetectionState::Idle, TransitionReason::PolicyChanged, now, wall, Seq::empty());
        let sigs = if legal_edge(a.s.state, DetectionState::Idle) && was_open { m.sigs.push(Signal::Ended) } else { m.sigs };
        StepAcc {
            s: ScopeStateView { policy_id: p.id@, policy_version: p.version, last_event_at: None, peak_matched: Seq::empty(), ..m.s },
            sigs,
            ..m
        }
    } else {
        a
    }
}

/// The evaluation-driven move for the current state.
pub open spec fn evaluate_move(a: StepAcc, p: DetectionPolicy, now: u128, wall: i128, over: bool, below: bool, matched: Seq<MatchedReason>) -> StepAcc {
    let since = elapsed(now, a.s.entered_at);
    match a.s.state {
        DetectionState::Idle => {
            if over {
                let to = if p.trigger_for == 0 { DetectionState::Active } else { DetectionState::PendingTrigger };
                let m = try_move(a, to, TransitionReason::ThresholdCrossed, now, wall, matched);
                if to == DetectionState::Active { started(m, now, matched) } else { m }
            } else {
                a
            }
        },
        DetectionState::PendingTrigger => {
            if over {
                if since >= p.trigger_for {
                    started(try_move(a, DetectionState::Active, TransitionReason::TriggerSustained, now, wall, matched), now, matched)
                } else {
                    a
                }
            } else {
                try_move(a, DetectionState::Idle, TransitionReason::TriggerAborted, now, wall, Seq::empty())
            }
        },
        DetectionState::Active => {
            if below {
                let held = match a.s.active_since {
                    Some(t) => elapsed(now, t) >= p.hold_down,
                    None => true,
                };
                if !held {
                    StepAcc { sup: Some(Suppression::HoldDown), ..a }
                } else if p.clear_for == 0 {
                    close_spec(a, p.cooldown, now, wall)
                } else {
                    try_move(a, DetectionState::PendingClear, TransitionReason::FellBelowClear, now, wall, Seq::empty())
                }
            } else {
                a
            }
        },
        DetectionState::PendingClear => {
            if below {
                if since >= p.clear_for { close_spec(a, p.cooldown, now, wall) } else { a }
            } else {
                try_move(a, DetectionState::Active, TransitionReason::ClearAborted, now, wall, matched)
            }
        },
        DetectionState::Cooldown => {
            if over { StepAcc { sup: Some(Suppression::Cooldown), ..a } } else { a }
        },
    }
}

/// One snapshot applied to one tracked entry: policy reset, snapshot
/// bookkeeping, cooldown expiry, detection counting and peaks, the
/// evaluation-driven move, and finally a paced `Updated` for a
/// still-open detection over threshold that raised nothing else.
pub open spec fn step_spec(s: ScopeStateView, p: DetectionPolicy, now: u128, wall: i128, over: bool, below: bool, matched: Seq<MatchedReason>) -> StepAcc {
    let a5 = evaluate_move(pre_evaluation(s, p, now, wall, matched), p, now, wall, over, below, matched);
    if is_open_spec(a5.s.state) && a5.sigs.len() == 0 && over {
        let due = match a5.s.last_event_at {
            Some(last) => elapsed(now, last) >= p.event_update_interval,
            None => true,
        };
        if due {
            StepAcc { s: ScopeStateView { last_event_at: Some(now), ..a5.s }, sigs: a5.sigs.push(Signal::Updated), ..a5 }
        } else {
            a5
        }
    } else {
        a5
    }
}

/// A scope just admitted under `p` at `at`: idle, with no history.
pub open spec fn fresh_entry(key: ScopeKeyView, p: DetectionPolicy, at: u128) -> ScopeStateView {
    ScopeStateView {
        key,
        policy_id: p.id@,
        policy_version: p.version,
        state: DetectionState::Idle,
        entered_at: at,
        active_since: None,
        last_snapshot_at: None,
        last_snapshot_wall: None,
        last_event_at: None,
        last_matched: Seq::empty(),
        peak_matched: Seq::empty(),
        snapshots_in_detection: 0,
    }
}

fn since_u128(now: u128, t: u128) -> (r: u128)
    ensures
        r == elapsed(now, t),
{
    if now >= t { now - t } else { 0 }
}

fn copy_reasons(v: &Vec<MatchedReason>) -> (r: Vec<MatchedReason>)
    ensures
        r@ == v@,
{
    let mut out: Vec<MatchedReason> = Vec::new();
    let mut i: usize = 0;
    while i < v.len()
        invariant
            i <= v.len(),
            out@ == v@.subrange(0, i as int),
        decreases v.len() - i,
    {
        out.push(v[i]);
        i = i + 1;
    }
    assert(out@ =~= v@);
    out
}

impl ScopeState {
    /// A fresh, idle entry for `key` under `policy`.
    pub fn new(key: ScopeKey, policy: &DetectionPolicy, at: u128) -> (r: ScopeState)
        ensures
            r@ == fresh_entry(key@, *policy, at),
    {
        ScopeState {
            key,
            policy_id: policy.id.clone(),
            policy_version: policy.version,
            state: DetectionState::Idle,
            entered_at: at,
            active_since: None,
            last_snapshot_at: None,
            last_snapshot_wall: None,
            last_event_at: None,
            last_matched: Vec::new(),
            peak_matched: Vec::new(),
            snapshots_in_detection: 0,
        }
    }

    /// An identical copy.
    pub fn duplicate(&self) -> (r: ScopeState)
        ensures
            r@ == self@,
    {
        ScopeState {
            key: self.key.duplicate(),
            policy_id: self.policy_id.clone(),
            policy_version: self.policy_version,
            state: self.state,
            entered_at: self.entered_at,
            active_since: self.active_since,
            last_snapshot_at: self.last_snapshot_at,
            last_snapshot_wall: self.last_snapshot_wall,
            last_event_at: self.last_event_at,
            last_matched: copy_reasons(&self.last_matched),
            peak_matched: copy_reasons(&self.peak_matched),
            snapshots_in_detection: self.snapshots_in_detection,
        }
    }

    /// How long the machine has been in its current state.
    pub fn time_in_state(&self, now: u128) -> (r: u128)
        ensures
            r == elapsed(now, self.entered_at),
    {
        since_u128(now, self.entered_at)
    }

    /// How long the current detection has been open, if one is.
    pub fn detection_age(&self, now: u128) -> (r: Option<u128>)
        ensures
            r == (match self.active_since {
                Some(t) => Some(elapsed(now, t)),
                None => None,
            }),
    {
        match self.active_since {
            Some(t) => Some(since_u128(now, t)),
            None => None,
        }
    }

    /// Applies a transition, refusing an edge the machine does not have.
    pub fn transition(&mut self, to: DetectionState, reason: TransitionReason, at: u128, at_wall: i128, matched: Vec<MatchedReason>) -> (r: Option<StateTransition>)
        ensures
            legal_edge(old(self).state, to) ==> ({
                let (s2, t) = moved(old(self)@, to, reason, at, at_wall, matched@);
                &&& final(self)@ == s2
                &&& r matches Some(x) && x@ == t
            }),
            !legal_edge(old(self).state, to) ==> final(self)@ == old(self)@ && r is None,
    {
        if !self.state.can_transition_to(to) {
            return None;
        }
        let from = self.state;
        let time_in_previous = since_u128(at, self.entered_at);
        self.state = to;
        self.entered_at = at;
        match to {
            DetectionState::Active => {
                if self.active_since.is_none() {
                    self.active_since = Some(at);
                    self.snapshots_in_detection = 0;
                    self.peak_matched = Vec::new();
                }
            },
            DetectionState::Idle | DetectionState::Cooldown => {
                self.active_since = None;
            },
            DetectionState::PendingTrigger | DetectionState::PendingClear => {},
        }
        let t = StateTransition {
            key: self.key.duplicate(),
            policy_id: self.policy_id.clone(),
            policy_version: self.policy_version,
            from,
            to,
            reason,
            at,
            at_wall,
            matched,
            time_in_previous,
        };
        proof {
            let (s2, tv) = moved(old(self)@, to, reason, at, at_wall, matched@);
            assert(self@.peak_matched =~= s2.peak_matched);
            assert(self@ == s2);
        }
        Some(t)
    }

    /// Keeps the highest value seen for each crossed metric.
    fn record_peaks(&mut self, matched: &Vec<MatchedReason>)
        ensures
            final(self)@ == (ScopeStateView { peak_matched: peaks_after(old(self)@.peak_matched, matched@), ..old(self)@ }),
    {
        let mut i: usize = 0;
        while i < matched.len()
            invariant
                i <= matched.len(),
                self@ == (ScopeStateView { peak_matched: peaks_after(old(self)@.peak_matched, matched@.subrange(0, i as int)), ..old(self)@ }),
            decreases matched.len() - i,
        {
            let reason = matched[i];
            let ghost before = self.peak_matched@;
            let mut j: usize = 0;
            let mut found: Option<usize> = None;
            while j < self.peak_matched.len()
                invariant
                    self.peak_matched@ == before,
                    j <= before.len(),
                    found is None ==> metric_position(before.subrange(0, j as int), reason.metric) is None,
                    found matches Some(f) ==> metric_position(before, reason.metric) == Some(f as int) && f < before.len(),
                decreases before.len() - j,
            {
                if found.is_none() {
                    assert(before.subrange(0, j + 1).drop_last() =~= before.subrange(0, j as int));
                    if self.peak_matched[j].metric == reason.metric {
                        found = Some(j);
                        proof { lemma_position_prefix(before, j as int + 1, reason.metric); }
                    }
                }
                j = j + 1;
            }
            if found.is_none() {
                assert(before.subrange(0, before.len() as int) =~= before);
            }
            match found {
                Some(f) => {
                    if reason.observed > self.peak_matched[f].observed {
                        self.peak_matched.set(f, reason);
                    }
                },
                None => {
                    self.peak_matched.push(reason);
                },
            }
            assert(matched@.subrange(0, i + 1).drop_last() =~= matched@.subrange(0, i as int));
            i = i + 1;
        }
        assert(matched@.subrange(0, matched@.len() as int) =~= matched@);
    }
}

proof fn lemma_position_prefix(s: Seq<MatchedReason>, n: int, m: crate::input::MetricKind)
    requires
        0 < n <= s.len(),
        s[n - 1].metric == m,
        metric_position(s.subrange(0, n - 1), m) is None,
    ensures
        metric_position(s, m) == Some(n - 1),
    decreases s.len(),
{
    if n < s.len() {
        assert(s.drop_last().subrange(0, n - 1) =~= s.subrange(0, n - 1));
        lemma_position_prefix(s.drop_last(), n, m);
    } else {
        assert(s.drop_last() =~= s.subrange(0, n - 1));
    }
}

/// The running result of an executing step, as a [`StepAcc`].
pub open spec fn acc_of(s: &ScopeState, ts: &Vec<StateTransition>, sigs: &Vec<Signal>, sup: Option<Suppression>) -> StepAcc {
    StepAcc { s: s@, ts: ts@.map_values(|t: StateTransition| t@), sigs: sigs@, sup }
}

fn push_move(entry: &mut ScopeState, ts: &mut Vec<StateTransition>, sigs: &Vec<Signal>, sup: Option<Suppression>, to: DetectionState, reason: TransitionReason, now: u128, wall: i128, matched: Vec<MatchedReason>)
    ensures
        acc_of(final(entry), final(ts), sigs, sup) == try_move(acc_of(old(entry), old(ts), sigs, sup), to, reason, now, wall, matched@),
{
    let ghost a = acc_of(old(entry), old(ts), sigs, sup);
    if let Some(t) = entry.transition(to, reason, now, wall, matched) {
        ts.push(t);
        assert(ts@.map_values(|t: StateTransition| t@) =~= a.ts.push(t@));
    }
}

fn close_entry(entry: &mut ScopeState, ts: &mut Vec<StateTransition>, sigs: &mut Vec<Signal>, sup: Option<Suppression>, cooldown: u128, now: u128, wall: i128)
    ensures
        acc_of(final(entry), final(ts), final(sigs), sup) == close_spec(acc_of(old(entry), old(ts), old(sigs), sup), cooldown, now, wall),
{
    let to = if cooldown == 0 { DetectionState::Idle } else { DetectionState::Cooldown };
    if entry.state.can_transition_to(to) {
        push_move(entry, ts, sigs, sup, to, TransitionReason::ClearSustained, now, wall, Vec::new());
        entry.last_event_at = Some(now);
        sigs.push(Signal::Ended);
    }
}

fn start_entry(entry: &mut ScopeState, sigs: &mut Vec<Signal>, now: u128, matched: &Vec<MatchedReason>)
    ensures
        final(entry)@ == (ScopeStateView { peak_matched: peaks_after(old(entry)@.peak_matched, matched@), last_event_at: Some(now), ..old(entry)@ }),
        final(sigs)@ == old(sigs)@.push(Signal::Started),
{
    entry.record_peaks(matched);
    entry.last_event_at = Some(now);
    sigs.push(Signal::Started);
}

/// Applies one snapshot's evaluation to one tracked entry.
pub(crate) fn step_entry(entry: &mut ScopeState, policy: &DetectionPolicy, now: u128, wall: i128, evaluation: &Evaluation) -> (r: StepOutcome)
    ensures
        ({
            let a = step_spec(old(entry)@, *policy, now, wall, evaluation.matched@.len() > 0, evaluation.all_below_clear, evaluation.matched@);
            &&& final(entry)@ == a.s
            &&& r.transitions_view() == a.ts
            &&& r.signals@ == a.sigs
            &&& r.suppressed == a.sup
            &&& r.state == Some(a.s.state)
            &&& r.ignored is None
        }),
        final(entry)@.key == old(entry)@.key,
{
    let ghost m = evaluation.matched@;
    let ghost over_g = evaluation.matched@.len() > 0;
    let ghost below_g = evaluation.all_below_clear;
    let mut ts: Vec<StateTransition> = Vec::new();
    let mut sigs: Vec<Signal> = Vec::new();
    let mut sup: Option<Suppression> = None;
    let ghost a0 = acc_of(entry, &ts, &sigs, sup);
    assert(a0.ts =~= Seq::<TransitionView>::empty());

    // A policy swap resets the machine.
    if !text_eq(entry.policy_id.as_str(), policy.id.as_str()) || entry.policy_version != policy.version {
        let was_open = entry.state.is_open();
        let legal = entry.state.can_transition_to(DetectionState::Idle);
        push_move(entry, &mut ts, &sigs, sup, DetectionState::Idle, TransitionReason::PolicyChanged, now, wall, Vec::new());
        if legal && was_open {
            sigs.push(Signal::Ended);
        }
        entry.policy_id = policy.id.clone();
        entry.policy_version = policy.version;
        entry.last_event_at = None;
        entry.peak_matched = Vec::new();
    }
    let ghost a1 = acc_of(entry, &ts, &sigs, sup);
    assert(a1 == policy_reset(a0, *policy, now, wall)) by {
        assert(a1.s.peak_matched =~= policy_reset(a0, *policy, now, wall).s.peak_matched);
    }

    entry.last_snapshot_at = Some(now);
    entry.last_snapshot_wall = Some(wall);
    entry.last_matched = copy_reasons(&evaluation.matched);
    let ghost a2 = acc_of(entry, &ts, &sigs, sup);

    // Pass one: the only purely time-driven exit.
    if entry.state == DetectionState::Cooldown && entry.time_in_state(now) >= policy.cooldown {
        push_move(entry, &mut ts, &sigs, sup, DetectionState::Idle, TransitionReason::CooldownExpired, now, wall, Vec::new());
    }
    let ghost a3 = acc_of(entry, &ts, &sigs, sup);

    let over = evaluation.is_over_threshold();
    if entry.state.is_open() {
        entry.snapshots_in_detection = entry.snapshots_in_detection.saturating_add(1);
        entry.record_peaks(&evaluation.matched);
    }
    let ghost a4 = acc_of(entry, &ts, &sigs, sup);
    assert(a4 == pre_evaluation(old(entry)@, *policy, now, wall, m));

    // Pass two: the evaluation.
    match entry.state {
        DetectionState::Idle => {
            if over {
                let to = if policy.trigger_for == 0 { DetectionState::Active } else { DetectionState::PendingTrigger };
                push_move(entry, &mut ts, &sigs, sup, to, TransitionReason::ThresholdCrossed, now, wall, copy_reasons(&evaluation.matched));
                if to == DetectionState::Active {
                    start_entry(entry, &mut sigs, now, &evaluation.matched);
                }
            }
        },
        DetectionState::PendingTrigger => {
            if over {
                if entry.time_in_state(now) >= policy.trigger_for {
                    push_move(entry, &mut ts, &sigs, sup, DetectionState::Active, TransitionReason::TriggerSustained, now, wall, copy_reasons(&evaluation.matched));
                    start_entry(entry, &mut sigs, now, &evaluation.matched);
                }
            } else {
                push_move(entry, &mut ts, &sigs, sup, DetectionState::Idle, TransitionReason::TriggerAborted, now, wall, Vec::new());
            }
        },
        DetectionState::Active => {
            if evaluation.all_below_clear {
                let held = match entry.detection_age(now) {
                    Some(age) => age >= policy.hold_down,
                    None => true,
                };
                if !held {
                    sup = Some(Suppression::HoldDown);
                } else if policy.clear_for == 0 {
                    close_entry(entry, &mut ts, &mut sigs, sup, policy.cooldown, now, wall);
                } else {
                    push_move(entry, &mut ts, &sigs, sup, DetectionState::PendingClear, TransitionReason::FellBelowClear, now, wall, Vec::new());
                }
            }
        },
        DetectionState::PendingClear => {
            if evaluation.all_below_clear {
                if entry.time_in_state(now) >= policy.clear_for {
                    close_entry(entry, &mut ts, &mut sigs, sup, policy.cooldown, now, wall);
                }
            } else {
                push_move(entry, &mut ts, &sigs, sup, DetectionState::Active, TransitionReason::ClearAborted, now, wall, copy_reasons(&evaluation.matched));
            }
        },
        DetectionState::Cooldown => {
            if over {
                sup = Some(Suppression::Cooldown);
            }
        },
    }
    let ghost a5 = acc_of(entry, &ts, &sigs, sup);
    assert(a5 == evaluate_move(a4, *policy, now, wall, over_g, below_g, m));

    // A still-open detection emits a paced update.
    if entry.state.is_open() && sigs.len() == 0 && over {
        let due = match entry.last_event_at {
            Some(last) => since_u128(now, last) >= policy.event_update_interval,
            None => true,
        };
        if due {
            entry.last_event_at = Some(now);
            sigs.push(Signal::Updated);
        }
    }
    let state = entry.state;
    StepOutcome { transitions: ts, signals: sigs, state: Some(state), ignored: None, suppressed: sup }
}

/// An entry's start time is present exactly while a detection is open.
pub open spec fn consistent(s: ScopeStateView) -> bool {
    is_open_spec(s.state) <==> s.active_since is Some
}

/// The transitions `ts` lead from `from` to `to`, each along an edge of
/// the machine and each starting where the previous one ended.
pub open spec fn is_path(ts: Seq<TransitionView>, from: DetectionState, to: DetectionState) -> bool {
    &&& forall|i: int| 0 <= i < ts.len() ==> legal_edge(#[trigger] ts[i].from, ts[i].to)
    &&& forall|i: int, j: int| 0 <= i < ts.len() && j == i + 1 && j < ts.len() ==> (#[trigger] ts[i]).to == (#[trigger] ts[j]).from
    &&& ts.len() == 0 ==> from == to
    &&& ts.len() > 0 ==> ts[0].from == from && ts[ts.len() - 1].to == to
}

proof fn lemma_try_move_path(a: StepAcc, from: DetectionState, to: DetectionState, reason: TransitionReason, at: u128, wall: i128, matched: Seq<MatchedReason>)
    requires
        is_path(a.ts, from, a.s.state),
    ensures
        is_path(try_move(a, to, reason, at, wall, matched).ts, from, try_move(a, to, reason, at, wall, matched).s.state),
{
    let m = try_move(a, to, reason, at, wall, matched);
    if legal_edge(a.s.state, to) {
        let t = m.ts[m.ts.len() - 1];
        assert(m.ts == a.ts.push(t));
        assert forall|i: int, j: int| 0 <= i < m.ts.len() && j == i + 1 && j < m.ts.len() implies (#[trigger] m.ts[i]).to == (#[trigger] m.ts[j]).from by {
            if j < a.ts.len() {
                assert(m.ts[i] == a.ts[i] && m.ts[j] == a.ts[j]);
            } else {
                assert(m.ts[i] == a.ts[a.ts.len() - 1]);
            }
        }
        assert forall|i: int| 0 <= i < m.ts.len() implies legal_edge(#[trigger] m.ts[i].from, m.ts[i].to) by {
            if i < a.ts.len() {
                assert(m.ts[i] == a.ts[i]);
            }
        }
    }
}

proof fn lemma_close_path(a: StepAcc, from: DetectionState, cooldown: u128, now: u128, wall: i128)
    requires
        is_path(a.ts, from, a.s.state),
    ensures
        is_path(close_spec(a, cooldown, now, wall).ts, from, close_spec(a, cooldown, now, wall).s.state),
{
    let to = if cooldown == 0 { DetectionState::Idle } else { DetectionState::Cooldown };
    lemma_try_move_path(a, from, to, TransitionReason::ClearSustained, now, wall, Seq::empty());
}

proof fn lemma_evaluate_path(a: StepAcc, from: DetectionState, p: DetectionPolicy, now: u128, wall: i128, over: bool, below: bool, matched: Seq<MatchedReason>)
    requires
        is_path(a.ts, from, a.s.state),
    ensures
        is_path(evaluate_move(a, p, now, wall, over, below, matched).ts, from, evaluate_move(a, p, now, wall, over, below, matched).s.state),
{
    let to = if p.trigger_for == 0 { DetectionState::Active } else { DetectionState::PendingTrigger };
    lemma_try_move_path(a, from, to, TransitionReason::ThresholdCrossed, now, wall, matched);
    lemma_try_move_path(a, from, DetectionState::Active, TransitionReason::TriggerSustained, now, wall, matched);
    lemma_try_move_path(a, from, DetectionState::Idle, TransitionReason::TriggerAborted, now, wall, Seq::empty());
    lemma_try_move_path(a, from, DetectionState::PendingClear, TransitionReason::FellBelowClear, now, wall, Seq::empty());
    lemma_try_move_path(a, from, DetectionState::Active, TransitionReason::ClearAborted, now, wall, matched);
    lemma_close_path(a, from, p.cooldown, now, wall);
}

/// Every transition of `a` is about `key`, and so is its entry.
pub open spec fn keyed_acc(a: StepAcc, key: ScopeKeyView) -> bool {
    &&& a.s.key == key
    &&& forall|i: int| 0 <= i < a.ts.len() ==> (#[trigger] a.ts[i]).key == key
}

proof fn lemma_try_move_keyed(a: StepAcc, key: ScopeKeyView, to: DetectionState, reason: TransitionReason, at: u128, wall: i128, matched: Seq<MatchedReason>)
    requires
        keyed_acc(a, key),
    ensures
        keyed_acc(try_move(a, to, reason, at, wall, matched), key),
{
    let m = try_move(a, to, reason, at, wall, matched);
    if legal_edge(a.s.state, to) {
        assert forall|i: int| 0 <= i < m.ts.len() implies (#[trigger] m.ts[i]).key == key by {
            if i < a.ts.len() {
                assert(m.ts[i] == a.ts[i]);
            }
        }
    }
}

/// Every transition a step records is about the scope stepped, and the
/// entry stays that scope's.
pub proof fn law_step_stays_with_its_scope(s: ScopeStateView, p: DetectionPolicy, now: u128, wall: i128, over: bool, below: bool, matched: Seq<MatchedReason>)
    ensures
        keyed_acc(step_spec(s, p, now, wall, over, below, matched), s.key),
{
    let key = s.key;
    let a0 = StepAcc { s, ts: Seq::empty(), sigs: Seq::empty(), sup: None };
    lemma_try_move_keyed(a0, key, DetectionState::Idle, TransitionReason::PolicyChanged, now, wall, Seq::empty());
    let a1 = policy_reset(a0, p, now, wall);
    let a2 = StepAcc { s: ScopeStateView { last_snapshot_at: Some(now), last_snapshot_wall: Some(wall), last_matched: matched, ..a1.s }, ..a1 };
    lemma_try_move_keyed(a2, key, DetectionState::Idle, TransitionReason::CooldownExpired, now, wall, Seq::empty());
    let a4 = pre_evaluation(s, p, now, wall, matched);
    assert(keyed_acc(a4, key));
    let to = if p.trigger_for == 0 { DetectionState::Active } else { DetectionState::PendingTrigger };
    let closed = if p.cooldown == 0 { DetectionState::Idle } else { DetectionState::Cooldown };
    lemma_try_move_keyed(a4, key, to, TransitionReason::ThresholdCrossed, now, wall, matched);
    lemma_try_move_keyed(a4, key, DetectionState::Active, TransitionReason::TriggerSustained, now, wall, matched);
    lemma_try_move_keyed(a4, key, DetectionState::Idle, TransitionReason::TriggerAborted, now, wall, Seq::empty());
    lemma_try_move_keyed(a4, key, DetectionState::PendingClear, TransitionReason::FellBelowClear, now, wall, Seq::empty());
    lemma_try_move_keyed(a4, key, DetectionState::Active, TransitionReason::ClearAborted, now, wall, matched);
    lemma_try_move_keyed(a4, key, closed, TransitionReason::ClearSustained, now, wall, Seq::empty());
}

/// Whether `t` opens a detection: a move into `Active` from `Idle` or
/// `PendingTrigger` (a return from `PendingClear` does not).
pub open spec fn opens(t: TransitionView) -> bool {
    t.to == DetectionState::Active && (t.from == DetectionState::Idle || t.from == DetectionState::PendingTrigger)
}

proof fn lemma_pre_evaluation_moves(s: ScopeStateView, p: DetectionPolicy, now: u128, wall: i128, matched: Seq<MatchedReason>)
    ensures
        forall|i: int| 0 <= i < pre_evaluation(s, p, now, wall, matched).ts.len()
            ==> (#[trigger] pre_evaluation(s, p, now, wall, matched).ts[i]).to == DetectionState::Idle,
        !pre_evaluation(s, p, now, wall, matched).sigs.contains(Signal::Started),
{
    let a0 = StepAcc { s, ts: Seq::empty(), sigs: Seq::empty(), sup: None };
    let a1 = policy_reset(a0, p, now, wall);
    assert(forall|i: int| 0 <= i < a1.ts.len() ==> (#[trigger] a1.ts[i]).to == DetectionState::Idle);
    assert(!a1.sigs.contains(Signal::Started)) by {
        if a1.sigs.len() > 0 {
            assert(a1.sigs =~= seq![Signal::Ended]);
        }
    }
    let a2 = StepAcc { s: ScopeStateView { last_snapshot_at: Some(now), last_snapshot_wall: Some(wall), last_matched: matched, ..a1.s }, ..a1 };
    let a3 = if a2.s.state == DetectionState::Cooldown && elapsed(now, a2.s.entered_at) >= p.cooldown {
        try_move(a2, DetectionState::Idle, TransitionReason::CooldownExpired, now, wall, Seq::empty())
    } else {
        a2
    };
    assert forall|i: int| 0 <= i < a3.ts.len() implies (#[trigger] a3.ts[i]).to == DetectionState::Idle by {
        if i < a2.ts.len() {
            assert(a3.ts[i] == a2.ts[i]);
        }
    }
    assert(a3.sigs == a1.sigs);
}

/// A step raises `Started` exactly when one of its transitions opens a
/// detection, from `Idle` or `PendingTrigger` into `Active`.
pub proof fn law_started_marks_an_opening_move(s: ScopeStateView, p: DetectionPolicy, now: u128, wall: i128, over: bool, below: bool, matched: Seq<MatchedReason>)
    ensures
        step_spec(s, p, now, wall, over, below, matched).sigs.contains(Signal::Started)
            <==> exists|i: int| 0 <= i < step_spec(s, p, now, wall, over, below, matched).ts.len()
                && opens(#[trigger] step_spec(s, p, now, wall, over, below, matched).ts[i]),
{
    lemma_pre_evaluation_moves(s, p, now, wall, matched);
    let a4 = pre_evaluation(s, p, now, wall, matched);
    let a5 = evaluate_move(a4, p, now, wall, over, below, matched);
    let a = step_spec(s, p, now, wall, over, below, matched);
    assert(a.ts == a5.ts);
    assert(forall|i: int| 0 <= i < a4.ts.len() ==> !opens(#[trigger] a4.ts[i]));
    assert(a.sigs == a5.sigs || a.sigs == a5.sigs.push(Signal::Updated));
    assert(a.sigs.contains(Signal::Started) <==> a5.sigs.contains(Signal::Started)) by {
        if a.sigs == a5.sigs.push(Signal::Updated) {
            if a.sigs.contains(Signal::Started) {
                let j = choose|j: int| 0 <= j < a.sigs.len() && a.sigs[j] == Signal::Started;
                assert(j < a5.sigs.len());
                assert(a5.sigs[j] == Signal::Started);
            }
            if a5.sigs.contains(Signal::Started) {
                let j = choose|j: int| 0 <= j < a5.sigs.len() && a5.sigs[j] == Signal::Started;
                assert(a.sigs[j] == Signal::Started);
            }
        }
    }
    let n = a4.ts.len();
    assert(a5.ts.len() == n || a5.ts.len() == n + 1);
    assert(forall|i: int| 0 <= i < n ==> #[trigger] a5.ts[i] == a4.ts[i]);
    if a5.ts.len() == n + 1 {
        let t = a5.ts[n as int];
        assert(a5.sigs.contains(Signal::Started) <==> opens(t)) by {
            if a5.sigs.contains(Signal::Started) {
                let j = choose|j: int| 0 <= j < a5.sigs.len() && a5.sigs[j] == Signal::Started;
                if j < a4.sigs.len() {
                    assert(a4.sigs[j] == Signal::Started);
                }
            }
            if opens(t) {
                assert(a5.sigs[a5.sigs.len() - 1] == Signal::Started);
            }
        }
        if a5.sigs.contains(Signal::Started) {
            assert(opens(a.ts[n as int]));
        }
    } else {
        assert(!a5.sigs.contains(Signal::Started)) by {
            if a5.sigs.contains(Signal::Started) {
                let j = choose|j: int| 0 <= j < a5.sigs.len() && a5.sigs[j] == Signal::Started;
                assert(a4.sigs[j] == Signal::Started);
            }
        }
    }
}

/// Every transition a step records follows an edge of the machine, and
/// together they lead from the state before the step to the state after
/// it; a step records at most two.
pub proof fn law_step_follows_the_machine(s: ScopeStateView, p: DetectionPolicy, now: u128, wall: i128, over: bool, below: bool, matched: Seq<MatchedReason>)
    ensures
        is_path(step_spec(s, p, now, wall, over, below, matched).ts, s.state, step_spec(s, p, now, wall, over, below, matched).s.state),
        step_spec(s, p, now, wall, over, below, matched).ts.len() <= 2,
{
    let a0 = StepAcc { s, ts: Seq::empty(), sigs: Seq::empty(), sup: None };
    lemma_try_move_path(a0, s.state, DetectionState::Idle, TransitionReason::PolicyChanged, now, wall, Seq::empty());
    let a1 = policy_reset(a0, p, now, wall);
    let a2 = StepAcc { s: ScopeStateView { last_snapshot_at: Some(now), last_snapshot_wall: Some(wall), last_matched: matched, ..a1.s }, ..a1 };
    lemma_try_move_path(a2, s.state, DetectionState::Idle, TransitionReason::CooldownExpired, now, wall, Seq::empty());
    let a4 = pre_evaluation(s, p, now, wall, matched);
    lemma_evaluate_path(a4, s.state, p, now, wall, over, below, matched);
}

/// A step raises at most two signals: the end of a detection whose
/// policy changed, then at most one more.
pub proof fn lemma_step_signals(s: ScopeStateView, p: DetectionPolicy, now: u128, wall: i128, over: bool, below: bool, matched: Seq<MatchedReason>)
    ensures
        step_spec(s, p, now, wall, over, below, matched).sigs.len() <= 2,
{
    let a4 = pre_evaluation(s, p, now, wall, matched);
    assert(a4.sigs.len() <= 1);
    let a5 = evaluate_move(a4, p, now, wall, over, below, matched);
    let to = if p.cooldown == 0 { DetectionState::Idle } else { DetectionState::Cooldown };
    assert(try_move(a4, to, TransitionReason::ClearSustained, now, wall, Seq::empty()).sigs == a4.sigs);
    assert(a5.sigs.len() <= a4.sigs.len() + 1);
}

/// The entry just before the evaluation-driven move of a step: policy
/// reset, snapshot bookkeeping, cooldown expiry, detection counting.
pub open spec fn pre_evaluation(s: ScopeStateView, p: DetectionPolicy, now: u128, wall: i128, matched: Seq<MatchedReason>) -> StepAcc {
    let a0 = StepAcc { s, ts: Seq::empty(), sigs: Seq::empty(), sup: None };
    let a1 = policy_reset(a0, p, now, wall);
    let a2 = StepAcc { s: ScopeStateView { last_snapshot_at: Some(now), last_snapshot_wall: Some(wall), last_matched: matched, ..a1.s }, ..a1 };
    let a3 = if a2.s.state == DetectionState::Cooldown && elapsed(now, a2.s.entered_at) >= p.cooldown {
        try_move(a2, DetectionState::Idle, TransitionReason::CooldownExpired, now, wall, Seq::empty())
    } else {
        a2
    };
    if is_open_spec(a3.s.state) {
        StepAcc {
            s: ScopeStateView {
                snapshots_in_detection: if a3.s.snapshots_in_detection == u64::MAX { u64::MAX } else { (a3.s.snapshots_in_detection + 1) as u64 },
                peak_matched: peaks_after(a3.s.peak_matched, matched),
                ..a3.s
            },
            ..a3
        }
    } else {
        a3
    }
}

proof fn lemma_pre_evaluation(s: ScopeStateView, p: DetectionPolicy, now: u128, wall: i128, matched: Seq<MatchedReason>)
    requires
        consistent(s),
    ensures
        ({
            let a = pre_evaluation(s, p, now, wall, matched);
            &&& consistent(a.s)
            &&& a.s.last_snapshot_at == Some(now)
            &&& is_open_spec(a.s.state) ==> a.s.state == s.state && a.sigs.len() == 0
            &&& a.sigs.len() == 0 || (a.sigs =~= seq![Signal::Ended] && is_open_spec(s.state) && a.s.state == DetectionState::Idle)
            &&& is_open_spec(s.state) && a.sigs.len() == 0 ==> a.s.state == s.state
        }),
{
}

/// A detection is open exactly while its start time is recorded, and
/// every step keeps it so.
pub proof fn law_step_keeps_start_time(s: ScopeStateView, p: DetectionPolicy, now: u128, wall: i128, over: bool, below: bool, matched: Seq<MatchedReason>)
    requires
        consistent(s),
    ensures
        consistent(step_spec(s, p, now, wall, over, below, matched).s),
        step_spec(s, p, now, wall, over, below, matched).s.last_snapshot_at == Some(now),
{
    lemma_pre_evaluation(s, p, now, wall, matched);
}

/// Starts and ends pair up: a step that opens a detection raises
/// `Started`, and every `Started` marks a detection that began at the
/// step's instant; a step that closes an open detection raises `Ended`,
/// and `Ended` is only raised when a detection was open.
pub proof fn law_signals_mark_opening_and_closing(s: ScopeStateView, p: DetectionPolicy, now: u128, wall: i128, over: bool, below: bool, matched: Seq<MatchedReason>)
    requires
        consistent(s),
    ensures
        ({
            let a = step_spec(s, p, now, wall, over, below, matched);
            &&& !is_open_spec(s.state) && is_open_spec(a.s.state) ==> a.sigs.contains(Signal::Started)
            &&& is_open_spec(s.state) && !is_open_spec(a.s.state) ==> a.sigs.contains(Signal::Ended)
            &&& a.sigs.contains(Signal::Started) ==> is_open_spec(a.s.state) && a.s.active_since == Some(now)
            &&& a.sigs.contains(Signal::Ended) ==> is_open_spec(s.state)
        }),
{
    lemma_pre_evaluation(s, p, now, wall, matched);
    let a4 = pre_evaluation(s, p, now, wall, matched);
    let a5 = evaluate_move(a4, p, now, wall, over, below, matched);
    let a = step_spec(s, p, now, wall, over, below, matched);
    assert(a.sigs == a5.sigs || a.sigs == a5.sigs.push(Signal::Updated));
    if a4.sigs.len() == 0 {
        assert(a5.sigs.len() <= 1);
        if a5.sigs.len() == 1 {
            assert(a5.sigs[0] == Signal::Started ==> is_open_spec(a5.s.state) && a5.s.active_since == Some(now));
            assert(a5.sigs[0] == Signal::Ended ==> is_open_spec(a4.s.state));
        }
        if a.sigs.contains(Signal::Started) {
            let i = choose|i: int| 0 <= i < a.sigs.len() && a.sigs[i] == Signal::Started;
            assert(a5.sigs[i] == Signal::Started);
        }
        if a.sigs.contains(Signal::Ended) {
            let i = choose|i: int| 0 <= i < a.sigs.len() && a.sigs[i] == Signal::Ended;
            assert(a5.sigs[i] == Signal::Ended);
        }
        if !is_open_spec(s.state) && is_open_spec(a.s.state) {
            assert(a5.sigs[0] == Signal::Started);
            assert(a.sigs[0] == Signal::Started);
        }
        if is_open_spec(s.state) && !is_open_spec(a.s.state) {
            assert(a5.sigs[0] == Signal::Ended);
            assert(a.sigs[0] == Signal::Ended);
        }
    } else {
        assert(a4.sigs[0] == Signal::Ended);
        assert(a5.sigs.len() == 1 || (a5.sigs.len() == 2 && a5.sigs[1] == Signal::Started && is_open_spec(a5.s.state) && a5.s.active_since == Some(now)));
        assert(a.sigs[0] == Signal::Ended);
        if a.sigs.contains(Signal::Started) {
            let i = choose|i: int| 0 <= i < a.sigs.len() && a.sigs[i] == Signal::Started;
            assert(i == 1);
        }
    }
}

} // verus!
