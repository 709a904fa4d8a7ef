//! Comparing one snapshot against one policy.
//!
//! Every crossed threshold is reported, not only the first, and a metric
//! whose source data was never present is skipped rather than treated as
//! zero.

use vstd::prelude::*;

verus! {

use crate::input::{DataCompleteness, DetectionSnapshot, MetricKind, MetricRates};
use crate::policy::{DetectionPolicy, clear_threshold_spec};

/// One threshold that a snapshot crossed.
#[derive(Debug, Clone, Copy, PartialEq, Eq, Structural)]
pub struct MatchedReason {
    pub metric: MetricKind,
    /// Observed rate in canonical units.
    pub observed: u64,
    /// The policy's trigger threshold in canonical units.
    pub threshold: u64,
    /// `observed - threshold`, saturating at zero.
    pub excess: u64,
    /// `observed * 100 / threshold`, saturating at `u64::MAX`.
    pub ratio_percent: u64,
}

/// `observed * 100 / threshold` saturated into `u64`; `u64::MAX` for a
/// zero threshold.
pub open spec fn ratio_percent_spec(observed: u64, threshold: u64) -> u64 {
    if threshold == 0 {
        u64::MAX
    } else {
        let scaled = (observed as int) * 100 / (threshold as int);
        if scaled > u64::MAX { u64::MAX } else { scaled as u64 }
    }
}

/// The reason recorded when `observed` crosses `threshold` on `metric`.
pub open spec fn reason_spec(metric: MetricKind, observed: u64, threshold: u64) -> MatchedReason {
    MatchedReason {
        metric,
        observed,
        threshold,
        excess: if observed >= threshold { (observed - threshold) as u64 } else { 0 },
        ratio_percent: ratio_percent_spec(observed, threshold),
    }
}

/// A crossing records its metric, observation and threshold as given,
/// the amount by which the observation exceeds the threshold, and the
/// observation as a whole percentage of the threshold, rounded down: at
/// least 100 exactly when the threshold is reached, and (below the cap)
/// the largest `p` with `p * threshold <= observed * 100`.
pub proof fn law_ratio_is_the_percentage_of_the_threshold(metric: MetricKind, observed: u64, threshold: u64)
    requires
        threshold > 0,
    ensures
        ({
            let r = reason_spec(metric, observed, threshold);
            &&& r.metric == metric && r.observed == observed && r.threshold == threshold
            &&& observed >= threshold ==> r.excess + threshold == observed && r.ratio_percent >= 100
            &&& observed < threshold ==> r.excess == 0 && r.ratio_percent < 100
            &&& r.ratio_percent < u64::MAX ==> r.ratio_percent * threshold <= observed * 100 && observed * 100 < (r.ratio_percent + 1) * threshold
        }),
{
    let x: int = observed * 100;
    let d: int = threshold as int;
    let q: int = x / d;
    vstd::arithmetic::div_mod::lemma_fundamental_div_mod(x, d);
    vstd::arithmetic::div_mod::lemma_mod_pos_bound(x, d);
    assert(q * d <= x && x < (q + 1) * d) by (nonlinear_arith)
        requires
            x == d * q + x % d,
            0 <= x % d < d,
    ;
    if observed >= threshold {
        assert(q >= 100) by (nonlinear_arith)
            requires
                x == observed * 100,
                observed >= d,
                d > 0,
                x < (q + 1) * d,
        ;
    } else {
        assert(q < 100) by (nonlinear_arith)
            requires
                x == observed * 100,
                observed < d,
                d > 0,
                q * d <= x,
        ;
    }
}

/// `observed * 100 / threshold`, saturating rather than overflowing,
/// and never dividing by zero.
pub fn ratio_percent(observed: u64, threshold: u64) -> (r: u64)
    ensures
        r == ratio_percent_spec(observed, threshold),
{
    if threshold == 0 {
        return u64::MAX;
    }
    proof {
        assert((observed as u128) * 100 <= 0xffff_ffff_ffff_ffffu128 * 100) by (nonlinear_arith)
            requires observed <= 0xffff_ffff_ffff_ffffu64;
    }
    let scaled: u128 = (observed as u128) * 100 / (threshold as u128);
    if scaled > u64::MAX as u128 {
        u64::MAX
    } else {
        scaled as u64
    }
}

impl MatchedReason {
    pub fn new(metric: MetricKind, observed: u64, threshold: u64) -> (r: MatchedReason)
        ensures
            r == reason_spec(metric, observed, threshold),
    {
        MatchedReason {
            metric,
            observed,
            threshold,
            excess: observed.saturating_sub(threshold),
            ratio_percent: ratio_percent(observed, threshold),
        }
    }
}

/// Why a configured threshold was not evaluated.
#[derive(Debug, Clone, Copy, PartialEq, Eq, Structural)]
pub enum SkipReason {
    /// The upstream protocol never carried the field this metric derives
    /// from, so its value is unknown rather than zero.
    SourceFieldAbsent,
}

#[derive(Debug, Clone, Copy, PartialEq, Eq, Structural)]
pub struct SkippedMetric {
    pub metric: MetricKind,
    pub reason: SkipReason,
}

/// The result of comparing one snapshot against one policy.
#[derive(Debug, Clone, PartialEq, Eq, Default)]
pub struct Evaluation {
    /// Thresholds crossed, in metric order.
    pub matched: Vec<MatchedReason>,
    /// Thresholds that could not be evaluated.
    pub skipped: Vec<SkippedMetric>,
    /// Some threshold was evaluated and every evaluated one is at or
    /// below its clear level.
    pub all_below_clear: bool,
    /// How many thresholds were actually evaluated.
    pub evaluated: usize,
}

impl Evaluation {
    pub fn is_over_threshold(&self) -> (r: bool)
        ensures
            r == (self.matched@.len() > 0),
    {
        self.matched.len() > 0
    }
}

/// Whether `metric` can be evaluated given what the window observed.
pub open spec fn evaluable(metric: MetricKind, c: DataCompleteness) -> bool {
    match metric.required_completeness_spec() {
        Some(flag) => c.has_spec(flag),
        None => true,
    }
}

/// The crossed thresholds among `t`, in order.
pub open spec fn matched_spec(t: Seq<(MetricKind, u64)>, rates: MetricRates, c: DataCompleteness) -> Seq<MatchedReason>
    decreases t.len(),
{
    if t.len() == 0 {
        Seq::empty()
    } else {
        let (k, thr) = t.last();
        let rest = matched_spec(t.drop_last(), rates, c);
        if evaluable(k, c) && rates.get_spec(k) >= thr {
            rest.push(reason_spec(k, rates.get_spec(k), thr))
        } else {
            rest
        }
    }
}

/// The thresholds among `t` that could not be evaluated, in order.
pub open spec fn skipped_spec(t: Seq<(MetricKind, u64)>, c: DataCompleteness) -> Seq<SkippedMetric>
    decreases t.len(),
{
    if t.len() == 0 {
        Seq::empty()
    } else {
        let (k, _) = t.last();
        let rest = skipped_spec(t.drop_last(), c);
        if evaluable(k, c) {
            rest
        } else {
            rest.push(SkippedMetric { metric: k, reason: SkipReason::SourceFieldAbsent })
        }
    }
}

/// How many thresholds among `t` can be evaluated.
pub open spec fn evaluated_spec(t: Seq<(MetricKind, u64)>, c: DataCompleteness) -> nat
    decreases t.len(),
{
    if t.len() == 0 {
        0
    } else {
        evaluated_spec(t.drop_last(), c) + if evaluable(t.last().0, c) { 1nat } else { 0nat }
    }
}

/// Every evaluable threshold among `t` is at or below its clear level.
pub open spec fn below_clear_spec(t: Seq<(MetricKind, u64)>, rates: MetricRates, c: DataCompleteness, percent: u8) -> bool {
    forall|i: int| 0 <= i < t.len() && evaluable((#[trigger] t[i]).0, c) ==> rates.get_spec(t[i].0) <= clear_threshold_spec(t[i].1, percent)
}

/// The whole evaluation of `snapshot` against `policy`.
pub open spec fn evaluation_matches(e: Evaluation, policy: DetectionPolicy, snapshot: DetectionSnapshot) -> bool {
    let t = policy.thresholds@;
    &&& e.matched@ == matched_spec(t, snapshot.rates, snapshot.completeness)
    &&& e.skipped@ == skipped_spec(t, snapshot.completeness)
    &&& e.evaluated == evaluated_spec(t, snapshot.completeness)
    &&& e.all_below_clear == (evaluated_spec(t, snapshot.completeness) > 0
        && below_clear_spec(t, snapshot.rates, snapshot.completeness, policy.clear_percent.value()))
}

proof fn lemma_evaluated_bound(t: Seq<(MetricKind, u64)>, c: DataCompleteness)
    ensures
        evaluated_spec(t, c) <= t.len(),
    decreases t.len(),
{
    if t.len() > 0 {
        lemma_evaluated_bound(t.drop_last(), c);
    }
}

/// Some threshold of `t` can be evaluated and is reached by `rates`.
pub open spec fn some_threshold_reached(t: Seq<(MetricKind, u64)>, rates: MetricRates, c: DataCompleteness) -> bool {
    exists|i: int| 0 <= i < t.len() && evaluable((#[trigger] t[i]).0, c) && rates.get_spec(t[i].0) >= t[i].1
}

proof fn lemma_matched_nonempty(t: Seq<(MetricKind, u64)>, rates: MetricRates, c: DataCompleteness)
    ensures
        matched_spec(t, rates, c).len() > 0 <==> some_threshold_reached(t, rates, c),
    decreases t.len(),
{
    if t.len() > 0 {
        let rest = t.drop_last();
        lemma_matched_nonempty(rest, rates, c);
        if some_threshold_reached(rest, rates, c) {
            let i = choose|i: int| 0 <= i < rest.len() && evaluable((#[trigger] rest[i]).0, c) && rates.get_spec(rest[i].0) >= rest[i].1;
            assert(t[i] == rest[i]);
        }
        if some_threshold_reached(t, rates, c) {
            let i = choose|i: int| 0 <= i < t.len() && evaluable((#[trigger] t[i]).0, c) && rates.get_spec(t[i].0) >= t[i].1;
            if i < t.len() - 1 {
                assert(rest[i] == t[i]);
            }
        }
        let last = t.len() - 1;
        assert(t[last] == t.last());
    }
}

/// An evaluation is over threshold (see [`Evaluation::is_over_threshold`])
/// exactly when some threshold of the policy can be evaluated on the
/// snapshot's data and the observed rate reaches it; reaching is
/// inclusive, so a rate equal to its threshold counts.
pub proof fn law_over_threshold_iff_a_threshold_is_reached(e: Evaluation, policy: DetectionPolicy, snapshot: DetectionSnapshot)
    requires
        evaluation_matches(e, policy, snapshot),
    ensures
        e.matched@.len() > 0 <==> some_threshold_reached(policy.thresholds@, snapshot.rates, snapshot.completeness),
{
    lemma_matched_nonempty(policy.thresholds@, snapshot.rates, snapshot.completeness);
}

/// Compares `snapshot` against `policy`. The caller has established
/// that the policy applies to the snapshot's scope.
pub fn evaluate(policy: &DetectionPolicy, snapshot: &DetectionSnapshot) -> (r: Evaluation)
    ensures
        evaluation_matches(r, *policy, *snapshot),
{
    let entries = policy.thresholds.iter();
    let mut matched: Vec<MatchedReason> = Vec::new();
    let mut skipped: Vec<SkippedMetric> = Vec::new();
    let mut evaluated: usize = 0;
    let mut all_below = true;
    let ghost t = policy.thresholds@;
    let ghost c = snapshot.completeness;
    let ghost rates = snapshot.rates;
    let ghost pct = policy.clear_percent.value();
    let mut i: usize = 0;
    while i < entries.len()
        invariant
            entries@ == t,
            t == policy.thresholds@,
            c == snapshot.completeness,
            rates == snapshot.rates,
            pct == policy.clear_percent.value(),
            i <= entries.len(),
            matched@ == matched_spec(t.subrange(0, i as int), rates, c),
            skipped@ == skipped_spec(t.subrange(0, i as int), c),
            evaluated == evaluated_spec(t.subrange(0, i as int), c),
            all_below == below_clear_spec(t.subrange(0, i as int), rates, c, pct),
        decreases entries.len() - i,
    {
        let (metric, threshold) = entries[i];
        let ghost prefix = t.subrange(0, i as int);
        let ghost next = t.subrange(0, i + 1);
        assert(next.drop_last() =~= prefix);
        assert(next.last() == (metric, threshold));
        proof { lemma_evaluated_bound(prefix, c); }
        let can = match metric.required_completeness() {
            Some(flag) => snapshot.completeness.has(flag),
            None => true,
        };
        if !can {
            skipped.push(SkippedMetric { metric, reason: SkipReason::SourceFieldAbsent });
        } else {
            evaluated = evaluated + 1;
            let observed = snapshot.rates.get(metric);
            if observed >= threshold {
                matched.push(MatchedReason::new(metric, observed, threshold));
            }
            let clear = policy.clear_percent.clear_threshold(threshold);
            if observed > clear {
                all_below = false;
            }
        }
        proof {
            if all_below {
                assert forall|j: int| 0 <= j < next.len() && evaluable((#[trigger] next[j]).0, c) implies rates.get_spec(next[j].0) <= clear_threshold_spec(next[j].1, pct) by {
                    if j < i {
                        assert(next[j] == prefix[j]);
                    }
                }
            } else {
                if below_clear_spec(prefix, rates, c, pct) {
                    assert(evaluable(next[i as int].0, c) && !(rates.get_spec(next[i as int].0) <= clear_threshold_spec(next[i as int].1, pct)));
                } else {
                    let j = choose|j: int| 0 <= j < prefix.len() && evaluable((#[trigger] prefix[j]).0, c) && !(rates.get_spec(prefix[j].0) <= clear_threshold_spec(prefix[j].1, pct));
                    assert(next[j] == prefix[j]);
                }
            }
        }
        i = i + 1;
    }
    assert(t.subrange(0, entries.len() as int) =~= t);
    Evaluation {
        matched,
        skipped,
        all_below_clear: if evaluated == 0 { false } else { all_below },
        evaluated,
    }
}

} // verus!
