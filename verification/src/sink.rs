//! Where detection events go.
//!
//! A sink is the only outward-facing seam of the detector, and it is
//! narrow: one method taking one event and saying whether it was
//! accepted. No sink can request mitigation.

use vstd::prelude::*;

verus! {

use crate::counters::sat_add;
use crate::event::{same_event, DetectionEvent};
use crate::policy::Severity;
use crate::render::{push_text, string_from_chars};

/// The level at which an event is written to the log.
#[derive(Debug, Clone, Copy, PartialEq, Eq, Structural)]
pub enum LogLevel {
    Info,
    Warn,
    Error,
}

/// An event's log level follows its severity: informational and minor
/// events are logged at info, major ones at warn, critical ones at error.
pub open spec fn level_of(severity: Severity) -> LogLevel {
    match severity {
        Severity::Info | Severity::Minor => LogLevel::Info,
        Severity::Major => LogLevel::Warn,
        Severity::Critical => LogLevel::Error,
    }
}

/// The level a log sink writes an event of `severity` at.
pub fn log_level(severity: Severity) -> (r: LogLevel)
    ensures
        r == level_of(severity),
{
    match severity {
        Severity::Info => LogLevel::Info,
        Severity::Minor => LogLevel::Info,
        Severity::Major => LogLevel::Warn,
        Severity::Critical => LogLevel::Error,
    }
}

/// Why an event was not accepted.
#[derive(Debug, Clone, PartialEq, Eq)]
pub enum SinkError {
    Full { sink: &'static str },
    Closed { sink: &'static str },
    Backend { sink: &'static str, detail: String },
}

/// The message of a sink error.
pub open spec fn sink_error_text(e: SinkError) -> Seq<char> {
    match e {
        SinkError::Full { sink } => "sink "@ + sink@ + " is full; the event was dropped"@,
        SinkError::Closed { sink } => "sink "@ + sink@ + " is closed"@,
        SinkError::Backend { sink, detail } => "sink "@ + sink@ + " rejected the event: "@ + detail@,
    }
}

impl SinkError {
    /// The error's message.
    pub fn to_string(&self) -> (r: String)
        ensures
            r@ == sink_error_text(*self),
    {
        let mut out: Vec<char> = Vec::new();
        push_text(&mut out, "sink ");
        match self {
            SinkError::Full { sink } => {
                push_text(&mut out, sink);
                push_text(&mut out, " is full; the event was dropped");
            },
            SinkError::Closed { sink } => {
                push_text(&mut out, sink);
                push_text(&mut out, " is closed");
            },
            SinkError::Backend { sink, detail } => {
                push_text(&mut out, sink);
                push_text(&mut out, " rejected the event: ");
                push_text(&mut out, detail.as_str());
            },
        }
        proof {
            reveal_strlit("sink ");
            reveal_strlit(" is full; the event was dropped");
            reveal_strlit(" is closed");
            reveal_strlit(" rejected the event: ");
            assert(out@ =~= sink_error_text(*self));
        }
        string_from_chars(out)
    }
}

/// Somewhere a detection event can be published.
pub trait DetectionEventSink {
    /// Accepts one event, or explains why it could not. Must not block
    /// on network I/O.
    fn publish(&mut self, event: &DetectionEvent) -> Result<(), SinkError>;

    /// A short, fixed name used in errors and metrics.
    fn name(&self) -> &'static str;
}

/// Discards everything, successfully.
#[derive(Debug, Clone, Copy, Default)]
pub struct NullSink;

impl DetectionEventSink for NullSink {
    fn publish(&mut self, event: &DetectionEvent) -> (r: Result<(), SinkError>)
        ensures
            r is Ok,
    {
        Ok(())
    }

    fn name(&self) -> (r: &'static str)
        ensures
            r@ == "null"@,
    {
        "null"
    }
}

/// Keeps events in memory, bounded, the oldest dropped first.
#[derive(Debug)]
pub struct InMemorySink {
    capacity: usize,
    events: Vec<DetectionEvent>,
    dropped: u64,
}

/// An [`InMemorySink`] as values.
pub struct SinkView {
    pub capacity: usize,
    pub events: Seq<DetectionEvent>,
    pub dropped: u64,
}

impl View for InMemorySink {
    type V = SinkView;

    closed spec fn view(&self) -> SinkView {
        SinkView { capacity: self.capacity, events: self.events@, dropped: self.dropped }
    }
}

/// How many of `held` events a sink of `capacity` drops to take one
/// more.
pub open spec fn overflow(held: nat, capacity: usize) -> nat {
    if held >= capacity { (held - capacity + 1) as nat } else { 0 }
}

/// `s1` is `s0` after publishing `e` into a sink with room: the oldest
/// events beyond capacity dropped and counted, `e` appended.
pub open spec fn published_into(s0: SinkView, s1: SinkView, e: DetectionEvent) -> bool {
    let d = overflow(s0.events.len(), s0.capacity);
    &&& s1.capacity == s0.capacity
    &&& s1.events.len() == s0.events.len() - d + 1
    &&& forall|i: int| 0 <= i < s0.events.len() - d ==> #[trigger] s1.events[i] == s0.events[i + d]
    &&& same_event(e, s1.events.last())
    &&& s1.dropped == if s0.dropped + d > u64::MAX { u64::MAX } else { (s0.dropped + d) as u64 }
}

impl InMemorySink {
    pub fn new(capacity: usize) -> (r: InMemorySink)
        ensures
            r@.capacity == capacity,
            r@.events.len() == 0,
            r@.dropped == 0,
    {
        InMemorySink { capacity, events: Vec::new(), dropped: 0 }
    }

    /// Copies of every event still held, oldest first.
    pub fn events(&self) -> (r: Vec<DetectionEvent>)
        ensures
            r@.len() == self@.events.len(),
            forall|i: int| 0 <= i < r@.len() ==> same_event(self@.events[i], #[trigger] r@[i]),
    {
        let mut out: Vec<DetectionEvent> = Vec::new();
        let mut i: usize = 0;
        while i < self.events.len()
            invariant
                i <= self.events@.len(),
                out@.len() == i,
                forall|j: int| 0 <= j < i ==> same_event(self.events@[j], #[trigger] out@[j]),
            decreases self.events@.len() - i,
        {
            out.push(self.events[i].duplicate());
            i = i + 1;
        }
        out
    }

    pub fn len(&self) -> (r: usize)
        ensures
            r == self@.events.len(),
    {
        self.events.len()
    }

    pub fn is_empty(&self) -> (r: bool)
        ensures
            r == (self@.events.len() == 0),
    {
        self.events.len() == 0
    }

    /// How many events were discarded to stay within capacity.
    pub fn dropped(&self) -> (r: u64)
        ensures
            r == self@.dropped,
    {
        self.dropped
    }

    /// Forgets every event and the drop count.
    pub fn clear(&mut self)
        ensures
            final(self)@.capacity == old(self)@.capacity,
            final(self)@.events.len() == 0,
            final(self)@.dropped == 0,
    {
        self.events = Vec::new();
        self.dropped = 0;
    }
}

impl DetectionEventSink for InMemorySink {
    /// With no capacity the event is refused as `Full`; otherwise the
    /// oldest events are dropped until it fits, and it is kept.
    fn publish(&mut self, event: &DetectionEvent) -> (r: Result<(), SinkError>)
        ensures
            old(self)@.capacity == 0 ==> r == Err::<(), SinkError>(SinkError::Full { sink: "memory" }) && final(self)@ == old(self)@,
            old(self)@.capacity > 0 ==> r is Ok && published_into(old(self)@, final(self)@, *event),
    {
        if self.capacity == 0 {
            return Err(SinkError::Full { sink: "memory" });
        }
        let ghost s0 = self@;
        let ghost d = overflow(s0.events.len(), s0.capacity);
        let ghost mut k: int = 0;
        while self.events.len() >= self.capacity
            invariant
                self.capacity == s0.capacity,
                self.capacity > 0,
                0 <= k <= d,
                self.events@ == s0.events.subrange(k, s0.events.len() as int),
                self.dropped == if s0.dropped + k > u64::MAX { u64::MAX } else { (s0.dropped + k) as u64 },
                d == overflow(s0.events.len(), s0.capacity),
            decreases self.events@.len(),
        {
            self.events.remove(0);
            self.dropped = if self.dropped == u64::MAX { u64::MAX } else { self.dropped + 1 };
            proof {
                k = k + 1;
                assert(self.events@ =~= s0.events.subrange(k, s0.events.len() as int));
            }
        }
        proof {
            assert(k == d);
        }
        self.events.push(event.duplicate());
        Ok(())
    }

    fn name(&self) -> (r: &'static str)
        ensures
            r@ == "memory"@,
    {
        "memory"
    }
}

/// The result of a round of offers: `Ok` when every sink accepted,
/// otherwise the error of the earliest sink that refused.
pub open spec fn first_failure_spec(outcomes: Seq<Result<(), SinkError>>) -> Result<(), SinkError>
    decreases outcomes.len(),
{
    if outcomes.len() == 0 {
        Ok(())
    } else if outcomes[0] is Err {
        outcomes[0]
    } else {
        first_failure_spec(outcomes.drop_first())
    }
}

/// Reduces the outcomes of a round of offers, in sink order, to the
/// round's result (see [`first_failure_spec`]).
pub fn first_failure(outcomes: Vec<Result<(), SinkError>>) -> (r: Result<(), SinkError>)
    ensures
        r == first_failure_spec(outcomes@),
{
    let ghost all = outcomes@;
    let mut held = outcomes;
    let n = held.len();
    let mut i: usize = 0;
    proof {
        assert(all.subrange(0, n as int) =~= all);
    }
    while i < n
        invariant
            n == all.len(),
            all == outcomes@,
            held@ == all,
            i <= n,
            first_failure_spec(all) == first_failure_spec(all.subrange(i as int, n as int)),
        decreases n - i,
    {
        let ghost rest = all.subrange(i as int, n as int);
        proof {
            assert(rest[0] == all[i as int]);
            assert(rest.drop_first() =~= all.subrange(i + 1, n as int));
        }
        if held[i].is_err() {
            assert(first_failure_spec(rest) == all[i as int]);
            let failed = held.remove(i);
            assert(failed == all[i as int]);
            return failed;
        }
        i = i + 1;
    }
    Ok(())
}

/// Publishes to several sinks, always attempting every one and
/// reporting the first failure.
pub struct FanOutSink {
    sinks: Vec<Box<dyn DetectionEventSink>>,
    /// What each sink answered on the latest offer, in sink order.
    answers: Ghost<Seq<Result<(), SinkError>>>,
}

impl FanOutSink {
    pub fn new(sinks: Vec<Box<dyn DetectionEventSink>>) -> (r: FanOutSink)
        ensures
            r.len_spec() == sinks@.len(),
            r.answers_spec().len() == 0,
    {
        FanOutSink { sinks, answers: Ghost(Seq::empty()) }
    }

    /// How many sinks it publishes to.
    pub closed spec fn len_spec(&self) -> nat {
        self.sinks@.len()
    }

    /// What each sink answered on the latest offer, in sink order; empty
    /// before the first.
    pub closed spec fn answers_spec(&self) -> Seq<Result<(), SinkError>> {
        self.answers@
    }

    pub fn len(&self) -> (r: usize)
        ensures
            r == self.len_spec(),
    {
        self.sinks.len()
    }

    pub fn is_empty(&self) -> (r: bool)
        ensures
            r == (self.len_spec() == 0),
    {
        self.sinks.len() == 0
    }
}

impl DetectionEventSink for FanOutSink {
    /// Offers the event to every sink once, in order, even after one has
    /// refused it, and fails with the error of the first that refused;
    /// with no sinks it succeeds. What a sink answers is that sink's own
    /// affair: the contract fixes one answer per sink and the result
    /// drawn from them.
    fn publish(&mut self, event: &DetectionEvent) -> (r: Result<(), SinkError>)
        ensures
            final(self).len_spec() == old(self).len_spec(),
            final(self).answers_spec().len() == old(self).len_spec(),
            r == first_failure_spec(final(self).answers_spec()),
            old(self).len_spec() == 0 ==> r is Ok,
    {
        let ghost n = self.sinks@.len();
        let mut outcomes: Vec<Result<(), SinkError>> = Vec::new();
        let mut i: usize = 0;
        while i < self.sinks.len()
            invariant
                i <= self.sinks@.len(),
                self.sinks@.len() == n,
                outcomes@.len() == i,
            decreases self.sinks@.len() - i,
        {
            let outcome = self.sinks[i].publish(event);
            outcomes.push(outcome);
            i = i + 1;
        }
        self.answers = Ghost(outcomes@);
        first_failure(outcomes)
    }

    fn name(&self) -> (r: &'static str)
        ensures
            r@ == "fanout"@,
    {
        "fanout"
    }
}

} // verus!
