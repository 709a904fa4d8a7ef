//! Tumbling rate windows over processing time: 1s, 5s, 15s, 1m and 5m.
//!
//! Windows are keyed on when the aggregator received a flow, never on
//! the exporter's clock, so clock skew, missing timestamps and late
//! records cannot disturb them; a long flow is attributed whole to the
//! window it arrived in. Each window keeps the totals of its most recent
//! fully elapsed period; a partial period is never exposed. Durations
//! and instants are nanoseconds.

use vstd::prelude::*;

verus! {

use crate::counters::sat_add;

/// The five window durations, in nanoseconds.
pub const WINDOW_DURATIONS: [u128; 5] = [1_000_000_000, 5_000_000_000, 15_000_000_000, 60_000_000_000, 300_000_000_000];

/// The totals of one finished window.
#[derive(Debug, Clone, Copy, PartialEq, Eq, Structural)]
pub struct WindowTotals {
    pub bytes: u64,
    pub packets: u64,
    pub flows: u64,
}

/// One tumbling window.
#[derive(Debug, Clone, Copy, PartialEq, Eq, Structural)]
pub struct Window {
    pub duration: u128,
    pub window_start: u128,
    pub bytes: u64,
    pub packets: u64,
    pub flows: u64,
    /// The most recently finished window's totals.
    pub last_finalized: Option<WindowTotals>,
}

/// How many whole periods of `w` have elapsed by `now`.
pub open spec fn periods(w: Window, now: u128) -> nat {
    if now >= w.window_start && w.duration > 0 { ((now - w.window_start) / (w.duration as int)) as nat } else { 0 }
}

/// The window at `now`: unchanged until a period has elapsed; after
/// `k >= 1` periods it starts `k` periods later, empty, having finished
/// the current period (and then `k - 1` empty ones).
pub open spec fn rolled(w: Window, now: u128) -> Window {
    let k = periods(w, now);
    if k == 0 {
        w
    } else {
        Window {
            duration: w.duration,
            window_start: (w.window_start + k * w.duration) as u128,
            bytes: 0,
            packets: 0,
            flows: 0,
            last_finalized: Some(if k == 1 {
                WindowTotals { bytes: w.bytes, packets: w.packets, flows: w.flows }
            } else {
                WindowTotals { bytes: 0, packets: 0, flows: 0 }
            }),
        }
    }
}

/// The window after `bytes` and `packets` of one flow arrived at `now`.
pub open spec fn recorded(w: Window, now: u128, bytes: u64, packets: u64) -> Window {
    let r = rolled(w, now);
    Window { bytes: sat_add(r.bytes, bytes), packets: sat_add(r.packets, packets), flows: sat_add(r.flows, 1), ..r }
}

proof fn lemma_period_step(e: int, d: int, i: int)
    requires
        d > 0,
        e >= 0,
        i >= 0,
    ensures
        (e - i * d >= d) <==> (i + 1 <= e / d),
{
    assert((e - i * d >= d) <==> (i + 1 <= e / d)) by (nonlinear_arith)
        requires
            d > 0,
            e >= 0,
            i >= 0,
    ;
}

proof fn lemma_start_fits(start: int, d: int, k: int, now: int)
    requires
        d > 0,
        k >= 0,
        now >= start,
        k <= (now - start) / d,
    ensures
        start + k * d <= now,
{
    assert(k * d <= now - start) by (nonlinear_arith)
        requires
            d > 0,
            k >= 0,
            now - start >= 0,
            k <= (now - start) / d,
    ;
}

impl Window {
    fn new(duration: u128, now: u128) -> (r: Window)
        ensures
            r == (Window { duration, window_start: now, bytes: 0, packets: 0, flows: 0, last_finalized: None }),
    {
        Window { duration, window_start: now, bytes: 0, packets: 0, flows: 0, last_finalized: None }
    }

    /// Finishes every period that has elapsed by `now`.
    fn roll_if_elapsed(&mut self, now: u128)
        requires
            old(self).duration > 0,
        ensures
            *final(self) == rolled(*old(self), now),
    {
        let ghost w0 = *self;
        let ghost k = periods(w0, now);
        let ghost mut i: int = 0;
        while now >= self.window_start && now - self.window_start >= self.duration
            invariant
                self.duration == w0.duration,
                w0.duration > 0,
                0 <= i <= k,
                k == periods(w0, now),
                self.window_start == w0.window_start + i * w0.duration,
                i == 0 ==> *self == w0,
                i >= 1 ==> self.bytes == 0 && self.packets == 0 && self.flows == 0,
                i == 1 ==> self.last_finalized == Some(WindowTotals { bytes: w0.bytes, packets: w0.packets, flows: w0.flows }),
                i >= 2 ==> self.last_finalized == Some(WindowTotals { bytes: 0, packets: 0, flows: 0 }),
                w0.window_start <= self.window_start,
                i <= k ==> (now >= w0.window_start ==> self.window_start <= now) || k == 0,
            decreases k - i,
        {
            proof {
                lemma_period_step((now - w0.window_start) as int, w0.duration as int, i);
            }
            self.last_finalized = Some(WindowTotals { bytes: self.bytes, packets: self.packets, flows: self.flows });
            self.window_start = self.window_start + self.duration;
            self.bytes = 0;
            self.packets = 0;
            self.flows = 0;
            proof {
                i = i + 1;
                assert(self.window_start == w0.window_start + i * w0.duration) by (nonlinear_arith)
                    requires
                        self.window_start == w0.window_start + (i - 1) * w0.duration + w0.duration,
                ;
            }
        }
        proof {
            if now >= w0.window_start {
                lemma_period_step((now - w0.window_start) as int, w0.duration as int, i);
            }
            if k >= 1 {
                assert(i == k);
            } else {
                assert(i == 0);
            }
        }
    }

    /// Counts one flow's traffic at `now`.
    fn record(&mut self, now: u128, bytes: u64, packets: u64)
        requires
            old(self).duration > 0,
        ensures
            *final(self) == recorded(*old(self), now, bytes, packets),
    {
        self.roll_if_elapsed(now);
        self.bytes = self.bytes.saturating_add(bytes);
        self.packets = self.packets.saturating_add(packets);
        self.flows = self.flows.saturating_add(1);
    }
}

/// Every window empty and starting at `now`, in increasing duration.
pub open spec fn fresh_windows(now: u128) -> Seq<Window> {
    Seq::new(5, |i: int| Window { duration: WINDOW_DURATIONS[i], window_start: now, bytes: 0, packets: 0, flows: 0, last_finalized: None })
}

/// The full set of rate windows for one aggregation scope.
#[derive(Debug)]
pub struct RateWindowSet {
    windows: Vec<Window>,
}

impl View for RateWindowSet {
    type V = Seq<Window>;

    closed spec fn view(&self) -> Seq<Window> {
        self.windows@
    }
}

impl RateWindowSet {
    #[verifier::type_invariant]
    spec fn durations_positive(self) -> bool {
        forall|i: int| 0 <= i < self.windows@.len() ==> (#[trigger] self.windows@[i]).duration > 0
    }

    /// Every window empty, starting at `now`, in increasing duration.
    pub fn new(now: u128) -> (r: RateWindowSet)
        ensures
            r@ == fresh_windows(now),
            r@.len() == 5,
            forall|i: int| 0 <= i < 5 ==> #[trigger] r@[i] == (Window {
                duration: WINDOW_DURATIONS[i],
                window_start: now,
                bytes: 0,
                packets: 0,
                flows: 0,
                last_finalized: None,
            }),
    {
        let mut windows: Vec<Window> = Vec::new();
        let mut i: usize = 0;
        while i < 5
            invariant
                i <= 5,
                windows@.len() == i,
                forall|j: int| 0 <= j < i ==> #[trigger] windows@[j] == (Window {
                    duration: WINDOW_DURATIONS[j],
                    window_start: now,
                    bytes: 0,
                    packets: 0,
                    flows: 0,
                    last_finalized: None,
                }),
            decreases 5 - i,
        {
            windows.push(Window::new(WINDOW_DURATIONS[i], now));
            i = i + 1;
        }
        assert(windows@ =~= fresh_windows(now));
        RateWindowSet { windows }
    }

    /// Counts one flow's traffic in every window.
    pub fn record(&mut self, now: u128, bytes: u64, packets: u64)
        ensures
            final(self)@.len() == old(self)@.len(),
            forall|i: int| 0 <= i < old(self)@.len() ==> #[trigger] final(self)@[i] == recorded(old(self)@[i], now, bytes, packets),
    {
        proof {
            use_type_invariant(&*self);
        }
        let mut windows: Vec<Window> = Vec::new();
        std::mem::swap(&mut windows, &mut self.windows);
        let ghost w0 = windows@;
        let mut i: usize = 0;
        while i < windows.len()
            invariant
                i <= windows@.len(),
                windows@.len() == w0.len(),
                forall|j: int| 0 <= j < w0.len() ==> (#[trigger] w0[j]).duration > 0,
                forall|j: int| 0 <= j < i ==> #[trigger] windows@[j] == recorded(w0[j], now, bytes, packets),
                forall|j: int| i <= j < w0.len() ==> #[trigger] windows@[j] == w0[j],
            decreases windows@.len() - i,
        {
            let mut w = windows[i];
            w.record(now, bytes, packets);
            windows.set(i, w);
            i = i + 1;
        }
        self.windows = windows;
    }

    /// Finishes every window whose period has elapsed, without counting
    /// traffic, so idle periods read as zero rather than stale figures.
    pub fn tick(&mut self, now: u128)
        ensures
            final(self)@.len() == old(self)@.len(),
            forall|i: int| 0 <= i < old(self)@.len() ==> #[trigger] final(self)@[i] == rolled(old(self)@[i], now),
    {
        proof {
            use_type_invariant(&*self);
        }
        let mut windows: Vec<Window> = Vec::new();
        std::mem::swap(&mut windows, &mut self.windows);
        let ghost w0 = windows@;
        let mut i: usize = 0;
        while i < windows.len()
            invariant
                i <= windows@.len(),
                windows@.len() == w0.len(),
                forall|j: int| 0 <= j < w0.len() ==> (#[trigger] w0[j]).duration > 0,
                forall|j: int| 0 <= j < i ==> #[trigger] windows@[j] == rolled(w0[j], now),
                forall|j: int| i <= j < w0.len() ==> #[trigger] windows@[j] == w0[j],
            decreases windows@.len() - i,
        {
            let mut w = windows[i];
            w.roll_if_elapsed(now);
            windows.set(i, w);
            i = i + 1;
        }
        self.windows = windows;
    }

    /// Each window's duration with its last finished totals, `None` for
    /// a window that has not finished a period yet.
    pub fn totals(&self) -> (r: Vec<(u128, Option<WindowTotals>)>)
        ensures
            r@.len() == self@.len(),
            forall|i: int| 0 <= i < r@.len() ==> #[trigger] r@[i] == (self@[i].duration, self@[i].last_finalized),
    {
        let mut out: Vec<(u128, Option<WindowTotals>)> = Vec::new();
        let mut i: usize = 0;
        while i < self.windows.len()
            invariant
                i <= self.windows@.len(),
                out@.len() == i,
                forall|j: int| 0 <= j < i ==> #[trigger] out@[j] == (self.windows@[j].duration, self.windows@[j].last_finalized),
            decreases self.windows@.len() - i,
        {
            out.push((self.windows[i].duration, self.windows[i].last_finalized));
            i = i + 1;
        }
        out
    }
}

} // verus!
