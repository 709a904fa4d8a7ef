//! What the detection engine reports about itself.
//!
//! Every method takes only values from a closed set (a state, a reason,
//! a scope type, an event kind); none takes an address, a tenant or a
//! policy id, so no metric can grow one series per attacked host.

use vstd::prelude::*;

verus! {

use crate::event::EventKind;
use crate::input::ScopeType;
use crate::state::{DetectionState, StepIgnored, Suppression, TransitionReason};

/// Counters and gauges the engine updates as it runs.
pub trait DetectionMetrics {
    /// A snapshot was handed to the engine.
    fn snapshot_evaluated(&mut self, scope_type: ScopeType);

    /// A snapshot matched no policy at all.
    fn snapshot_unmatched(&mut self, scope_type: ScopeType);

    /// A snapshot was not applied.
    fn snapshot_ignored(&mut self, reason: StepIgnored);

    /// The state machine moved.
    fn transition(&mut self, from: DetectionState, to: DetectionState, reason: TransitionReason);

    /// A threshold crossing deliberately produced no detection.
    fn suppressed(&mut self, reason: Suppression);

    /// An event was built.
    fn event_built(&mut self, kind: EventKind);

    /// An event reached every sink it was offered to.
    fn event_published(&mut self, kind: EventKind);

    /// An event was refused by at least one sink, named by its fixed
    /// name.
    fn event_failed(&mut self, kind: EventKind, sink: &'static str);

    /// A metric could not be evaluated for want of its source field.
    fn metric_skipped(&mut self);

    /// How many scopes are currently in each state.
    fn scopes_in_state(&mut self, state: DetectionState, count: usize);

    /// How many scopes the windowing layer is accumulating.
    fn tracked_scopes(&mut self, count: usize);

    /// A scope was refused admission because the state table is full.
    fn state_table_full(&mut self);

    /// An open detection was closed because its snapshots stopped.
    fn detection_stale(&mut self);
}

/// Records nothing.
#[derive(Debug, Clone, Copy, Default)]
pub struct NoopMetrics;

impl DetectionMetrics for NoopMetrics {
    fn snapshot_evaluated(&mut self, scope_type: ScopeType) {
    }

    fn snapshot_unmatched(&mut self, scope_type: ScopeType) {
    }

    fn snapshot_ignored(&mut self, reason: StepIgnored) {
    }

    fn transition(&mut self, from: DetectionState, to: DetectionState, reason: TransitionReason) {
    }

    fn suppressed(&mut self, reason: Suppression) {
    }

    fn event_built(&mut self, kind: EventKind) {
    }

    fn event_published(&mut self, kind: EventKind) {
    }

    fn event_failed(&mut self, kind: EventKind, sink: &'static str) {
    }

    fn metric_skipped(&mut self) {
    }

    fn scopes_in_state(&mut self, state: DetectionState, count: usize) {
    }

    fn tracked_scopes(&mut self, count: usize) {
    }

    fn state_table_full(&mut self) {
    }

    fn detection_stale(&mut self) {
    }
}

/// `c + 1`, wrapping to zero past `u64::MAX`, as a relaxed
/// `fetch_add(1)` does.
pub open spec fn bumped(c: u64) -> u64 {
    if c == u64::MAX { 0 } else { (c + 1) as u64 }
}

fn bump(c: &mut u64)
    ensures
        *final(c) == bumped(*old(c)),
{
    *c = if *c == u64::MAX { 0 } else { *c + 1 };
}

/// Plain counters, so a test can assert on what happened.
#[derive(Debug, Clone, Copy, PartialEq, Eq, Structural)]
pub struct CountingMetrics {
    pub snapshots_evaluated: u64,
    pub snapshots_unmatched: u64,
    pub snapshots_ignored: u64,
    pub transitions: u64,
    pub suppressions: u64,
    pub events_built: u64,
    pub events_published: u64,
    pub events_failed: u64,
    pub metrics_skipped: u64,
    pub state_table_full: u64,
    pub detections_stale: u64,
    /// The latest count of scopes reported as `Active`.
    pub active_gauge: u64,
    /// The latest count of scopes the windowing layer reported.
    pub scope_gauge: u64,
}

/// Every counter zero.
pub open spec fn counters_zero(m: CountingMetrics) -> bool {
    &&& m.snapshots_evaluated == 0
    &&& m.snapshots_unmatched == 0
    &&& m.snapshots_ignored == 0
    &&& m.transitions == 0
    &&& m.suppressions == 0
    &&& m.events_built == 0
    &&& m.events_published == 0
    &&& m.events_failed == 0
    &&& m.metrics_skipped == 0
    &&& m.state_table_full == 0
    &&& m.detections_stale == 0
}

impl CountingMetrics {
    pub fn new() -> (r: CountingMetrics)
        ensures
            counters_zero(r),
            r.active_gauge == 0,
            r.scope_gauge == 0,
    {
        CountingMetrics {
            snapshots_evaluated: 0,
            snapshots_unmatched: 0,
            snapshots_ignored: 0,
            transitions: 0,
            suppressions: 0,
            events_built: 0,
            events_published: 0,
            events_failed: 0,
            metrics_skipped: 0,
            state_table_full: 0,
            detections_stale: 0,
            active_gauge: 0,
            scope_gauge: 0,
        }
    }

    /// A counter's value.
    pub fn get(counter: &u64) -> (r: u64)
        ensures
            r == *counter,
    {
        *counter
    }

    /// The most recent count of scopes reported as `Active`.
    pub fn active_scopes(&self) -> (r: u64)
        ensures
            r == self.active_gauge,
    {
        self.active_gauge
    }

    /// The most recent count of scopes the windowing layer reported.
    pub fn scopes_accumulating(&self) -> (r: u64)
        ensures
            r == self.scope_gauge,
    {
        self.scope_gauge
    }
}

impl Default for CountingMetrics {
    fn default() -> (r: CountingMetrics)
        ensures
            counters_zero(r),
            r.active_gauge == 0,
            r.scope_gauge == 0,
    {
        CountingMetrics::new()
    }
}

impl DetectionMetrics for CountingMetrics {
    fn snapshot_evaluated(&mut self, scope_type: ScopeType)
        ensures
            *final(self) == (CountingMetrics { snapshots_evaluated: bumped(old(self).snapshots_evaluated), ..*old(self) }),
    {
        bump(&mut self.snapshots_evaluated);
    }

    fn snapshot_unmatched(&mut self, scope_type: ScopeType)
        ensures
            *final(self) == (CountingMetrics { snapshots_unmatched: bumped(old(self).snapshots_unmatched), ..*old(self) }),
    {
        bump(&mut self.snapshots_unmatched);
    }

    fn snapshot_ignored(&mut self, reason: StepIgnored)
        ensures
            *final(self) == (CountingMetrics { snapshots_ignored: bumped(old(self).snapshots_ignored), ..*old(self) }),
    {
        bump(&mut self.snapshots_ignored);
    }

    fn transition(&mut self, from: DetectionState, to: DetectionState, reason: TransitionReason)
        ensures
            *final(self) == (CountingMetrics { transitions: bumped(old(self).transitions), ..*old(self) }),
    {
        bump(&mut self.transitions);
    }

    fn suppressed(&mut self, reason: Suppression)
        ensures
            *final(self) == (CountingMetrics { suppressions: bumped(old(self).suppressions), ..*old(self) }),
    {
        bump(&mut self.suppressions);
    }

    fn event_built(&mut self, kind: EventKind)
        ensures
            *final(self) == (CountingMetrics { events_built: bumped(old(self).events_built), ..*old(self) }),
    {
        bump(&mut self.events_built);
    }

    fn event_published(&mut self, kind: EventKind)
        ensures
            *final(self) == (CountingMetrics { events_published: bumped(old(self).events_published), ..*old(self) }),
    {
        bump(&mut self.events_published);
    }

    fn event_failed(&mut self, kind: EventKind, sink: &'static str)
        ensures
            *final(self) == (CountingMetrics { events_failed: bumped(old(self).events_failed), ..*old(self) }),
    {
        bump(&mut self.events_failed);
    }

    fn metric_skipped(&mut self)
        ensures
            *final(self) == (CountingMetrics { metrics_skipped: bumped(old(self).metrics_skipped), ..*old(self) }),
    {
        bump(&mut self.metrics_skipped);
    }

    /// Only the `Active` count is kept; it replaces the previous reading.
    fn scopes_in_state(&mut self, state: DetectionState, count: usize)
        ensures
            *final(self) == if state == DetectionState::Active {
                CountingMetrics { active_gauge: count as u64, ..*old(self) }
            } else {
                *old(self)
            },
    {
        if state == DetectionState::Active {
            self.active_gauge = count as u64;
        }
    }

    fn tracked_scopes(&mut self, count: usize)
        ensures
            *final(self) == (CountingMetrics { scope_gauge: count as u64, ..*old(self) }),
    {
        self.scope_gauge = count as u64;
    }

    fn state_table_full(&mut self)
        ensures
            *final(self) == (CountingMetrics { state_table_full: bumped(old(self).state_table_full), ..*old(self) }),
    {
        bump(&mut self.state_table_full);
    }

    fn detection_stale(&mut self)
        ensures
            *final(self) == (CountingMetrics { detections_stale: bumped(old(self).detections_stale), ..*old(self) }),
    {
        bump(&mut self.detections_stale);
    }
}

} // verus!
