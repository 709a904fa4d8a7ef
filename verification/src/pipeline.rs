//! The state one collector process owns and threads through its
//! processing loop: the prefix registry, the aggregator, and the
//! exporters' sampling configuration.

use vstd::prelude::*;

verus! {

use crate::aggregator::{config_ok, fresh_aggregator, Aggregator, AggregatorConfig};
use crate::clock::Clock;
use crate::direction::ClassificationResult;
use crate::document::CompiledPolicies;
use crate::engine::{lemma_pass_concat, merged, pass, reports, swept_at, DetectionEngine, EngineConfig, EngineReport, ThresholdDetectionEngine};
use crate::policy::DetectionPolicy;
use crate::table::TableView;
use crate::flow::NormalizedFlow;
use crate::input::DetectionSnapshot;
use crate::metrics::DetectionMetrics;
use crate::sink::DetectionEventSink;
use crate::bounded_map::elapsed_since;
use crate::window::{ingested, scope_total, ticked, DetectionWindows, WindowConfig, WindowsView};
use crate::net::IpAddress;
use crate::normalize::ExternalSamplingConfig;
use crate::registry::PrefixRegistry;

/// Sampling rates configured outside the flow data: one per exporter,
/// and a global default.
#[derive(Debug, Clone, Default)]
pub struct SamplingConfig {
    pub global_default: Option<u32>,
    /// Exporter and rate; the first entry for an exporter is its rate.
    pub per_exporter: Vec<(IpAddress, u32)>,
}

/// The rate `entries` configure for `exporter`: that of its first entry.
pub open spec fn configured_rate(entries: Seq<(IpAddress, u32)>, exporter: IpAddress) -> Option<u32>
    decreases entries.len(),
{
    if entries.len() == 0 {
        None
    } else if entries[0].0 == exporter {
        Some(entries[0].1)
    } else {
        configured_rate(entries.drop_first(), exporter)
    }
}

impl SamplingConfig {
    /// The configured sampling for flows from `exporter`.
    pub fn for_exporter(&self, exporter: IpAddress) -> (r: ExternalSamplingConfig)
        ensures
            r.exporter_configured == configured_rate(self.per_exporter@, exporter),
            r.global_default == self.global_default,
    {
        let mut i: usize = 0;
        let mut found: Option<u32> = None;
        proof {
            assert(self.per_exporter@.subrange(0, self.per_exporter@.len() as int) =~= self.per_exporter@);
        }
        while i < self.per_exporter.len()
            invariant
                i <= self.per_exporter@.len(),
                configured_rate(self.per_exporter@, exporter) == match found {
                    Some(r) => Some(r),
                    None => configured_rate(self.per_exporter@.subrange(i as int, self.per_exporter@.len() as int), exporter),
                },
            decreases self.per_exporter@.len() - i,
        {
            let ghost rest = self.per_exporter@.subrange(i as int, self.per_exporter@.len() as int);
            proof {
                assert(rest.drop_first() =~= self.per_exporter@.subrange(i + 1, self.per_exporter@.len() as int));
            }
            if found.is_none() && self.per_exporter[i].0 == exporter {
                found = Some(self.per_exporter[i].1);
            }
            i = i + 1;
        }
        proof {
            assert(self.per_exporter@.subrange(i as int, self.per_exporter@.len() as int).len() == 0);
        }
        ExternalSamplingConfig { exporter_configured: found, global_default: self.global_default }
    }
}

pub struct Pipeline {
    pub prefixes: PrefixRegistry,
    pub aggregator: Aggregator,
    pub sampling: SamplingConfig,
}

impl Pipeline {
    pub fn new(prefixes: PrefixRegistry, aggregator_config: AggregatorConfig, sampling: SamplingConfig, now: u128) -> (r: Pipeline)
        requires
            config_ok(aggregator_config),
        ensures
            r.prefixes@ == prefixes@,
            r.sampling == sampling,
            r.aggregator.wf(),
            r.aggregator@.config == aggregator_config,
            fresh_aggregator(r.aggregator@, aggregator_config, now),
    {
        Pipeline { prefixes, aggregator: Aggregator::new(aggregator_config, now), sampling }
    }
}

/// How the collector's detection stage is shaped.
#[derive(Debug, Clone, PartialEq, Eq)]
pub struct DetectionStageConfig {
    pub window: WindowConfig,
    pub engine: EngineConfig,
    /// How many events may wait for the export tick.
    pub event_buffer: usize,
}

/// The windowing layer and the engine, driven by the collector's loop
/// on its clock.
pub struct DetectionStage<S, M, C> {
    windows: DetectionWindows,
    engine: ThresholdDetectionEngine<S, M, C>,
}

impl<S: DetectionEventSink, M: DetectionMetrics, C: Clock> DetectionStage<S, M, C> {
    /// Empty windows starting at `now`, and an engine judging by
    /// `policies` that publishes to `sink`, counts into `metrics` and
    /// reads `clock`.
    /// The windows.
    pub closed spec fn windows_now(&self) -> DetectionWindows {
        self.windows
    }

    /// The engine.
    pub closed spec fn engine_now(&self) -> ThresholdDetectionEngine<S, M, C> {
        self.engine
    }

    pub fn new(config: DetectionStageConfig, policies: CompiledPolicies, sink: S, metrics: M, clock: C, now: u128) -> (r: DetectionStage<S, M, C>)
        ensures
            r.windows_now().wf(),
            r.windows_now()@.config == config.window,
            r.windows_now()@.window_start == now,
            scope_total(r.windows_now()@) == 0,
            r.engine_now()@.policies == policies.policies@,
            r.engine_now()@.table.config == config.engine.state,
            r.engine_now()@.table.entries.len() == 0,
    {
        let engine = ThresholdDetectionEngine::new(config.engine)
            .with_policies(policies.policies)
            .with_sink(sink)
            .with_metrics(metrics)
            .with_clock(clock);
        DetectionStage { windows: DetectionWindows::new(config.window, now), engine }
    }

    pub fn windows(&self) -> (r: &DetectionWindows)
        ensures
            *r == self.windows_now(),
    {
        &self.windows
    }

    pub fn engine(&self) -> (r: &ThresholdDetectionEngine<S, M, C>)
        ensures
            *r == self.engine_now(),
    {
        &self.engine
    }

    /// Counts one classified flow into the windows.
    pub fn ingest(&mut self, registry: &PrefixRegistry, flow: &NormalizedFlow, classification: &ClassificationResult, now: u128)
        requires
            old(self).windows_now().wf(),
        ensures
            final(self).windows_now().wf(),
            ingested(old(self).windows_now()@, final(self).windows_now()@, registry@, *flow, *classification, now),
            final(self).windows_now()@.config == old(self).windows_now()@.config,
            final(self).windows_now()@.window_start == old(self).windows_now()@.window_start,
            final(self).engine_now()@ == old(self).engine_now()@,
    {
        self.windows.ingest(registry, flow, classification, now);
    }

    /// Closes the window if it is due, evaluates the snapshots it gave,
    /// then sweeps; the report adds up both. Calling it more often than
    /// the window length is harmless: before the window is due, no
    /// snapshot is evaluated.
    pub fn tick(&mut self, now: u128, wall: i128) -> (r: EngineReport)
        requires
            old(self).windows_now().wf(),
        ensures
            final(self).windows_now().wf(),
            elapsed_since(now, old(self).windows_now()@.window_start) < old(self).windows_now()@.config.window ==> r.snapshots_seen == 0
                && final(self).windows_now()@ == old(self).windows_now()@,
            elapsed_since(now, old(self).windows_now()@.window_start) >= old(self).windows_now()@.config.window ==> exists|s: Seq<DetectionSnapshot>|
                #[trigger] ticked(old(self).windows_now()@, final(self).windows_now()@, s, now, wall),
            final(self).engine_now()@.policies == old(self).engine_now()@.policies,
            final(self).engine_now()@.factory.instance_id == old(self).engine_now()@.factory.instance_id,
            exists|s: Seq<DetectionSnapshot>| #[trigger] tick_outcome(
                old(self).windows_now()@,
                final(self).windows_now()@,
                old(self).engine_now()@.policies,
                old(self).engine_now()@.table,
                final(self).engine_now()@.table,
                r,
                now,
                wall,
                s,
            ),
    {
        let ghost w0 = self.windows@;
        let count = self.windows.scope_count();
        self.engine.metrics_mut().tracked_scopes(count);
        let snapshots = self.windows.tick(now, wall);
        let ghost settled = self.windows;
        let ghost policies = self.engine@.policies;
        let ghost id = self.engine@.factory.instance_id;
        let ghost t0 = self.engine@.table;
        let chunk: usize = usize::MAX / 4;
        let mut report: EngineReport;
        if snapshots.len() <= chunk {
            report = self.engine.evaluate(snapshots.as_slice());
        } else {
            report = EngineReport::default();
            let mut start: usize = 0;
            proof {
                assert(snapshots@.subrange(0, 0) =~= Seq::<DetectionSnapshot>::empty());
            }
            while start < snapshots.len()
                invariant
                    start <= snapshots@.len(),
                    chunk == usize::MAX / 4,
                    self.engine@.policies == policies,
                    self.engine@.factory.instance_id == id,
                    self.windows == settled,
                    self.engine@.table == pass(policies, t0, snapshots@.subrange(0, start as int)).0,
                decreases snapshots@.len() - start,
            {
                let end = if snapshots.len() - start > chunk { start + chunk } else { snapshots.len() };
                let part = vstd::slice::slice_subrange(snapshots.as_slice(), start, end);
                let ghost done = snapshots@.subrange(0, start as int);
                let evaluated = self.engine.evaluate(part);
                proof {
                    lemma_pass_concat(policies, t0, done, part@);
                    assert(done + part@ =~= snapshots@.subrange(0, end as int));
                }
                report.merge(evaluated);
                start = end;
            }
            proof {
                assert(snapshots@.subrange(0, start as int) =~= snapshots@);
            }
        }
        let ghost evaluated = report;
        let ghost t_mid = self.engine@.table;
        let swept = self.engine.sweep(now, wall);
        report.merge(swept);
        proof {
            assert(t_mid == pass(policies, t0, snapshots@).0);
            assert(swept_at(t_mid, self.engine@.table, now));
            if snapshots@.len() <= usize::MAX / 4 {
                assert(reports(evaluated, pass(policies, t0, snapshots@).1));
                assert(merged(evaluated, swept) == report);
            }
            if elapsed_since(now, w0.window_start) >= w0.config.window {
                assert(ticked(w0, self.windows@, snapshots@, now, wall));
                assert(w0 == old(self).windows_now()@);
                assert(self.windows@ == self.windows_now()@);
                assert(ticked(old(self).windows_now()@, self.windows_now()@, snapshots@, now, wall));
            }
            assert(tick_outcome(old(self).windows_now()@, self.windows_now()@, policies, t0, self.engine@.table, report, now, wall, snapshots@));
        }
        report
    }

    /// Detections currently open.
    pub fn open_detections(&self) -> (r: usize)
        ensures
            r == self.engine_now()@.table.entries.dom().filter(|k: crate::input::ScopeKeyView| crate::state::is_open_spec(self.engine_now()@.table.entries[k].state)).len(),
    {
        self.engine.open_detections()
    }
}

/// A tick at `now` took the windows from `w0` to `w1`, emitting `s`
/// (nothing before the window is due); the engine judged `s` with the
/// policies `ps`, starting from table `t0`, then swept at `now`, ending
/// at `t1`. When `s` fits one evaluation, `r` adds up the counts of that
/// pass and of a sweep, which sees no snapshot and opens nothing.
pub open spec fn tick_outcome(
    w0: WindowsView,
    w1: WindowsView,
    ps: Seq<DetectionPolicy>,
    t0: TableView,
    t1: TableView,
    r: EngineReport,
    now: u128,
    wall: i128,
    s: Seq<DetectionSnapshot>,
) -> bool {
    let due = elapsed_since(now, w0.window_start) >= w0.config.window;
    &&& due ==> ticked(w0, w1, s, now, wall)
    &&& !due ==> s.len() == 0 && w1 == w0
    &&& swept_at(pass(ps, t0, s).0, t1, now)
    &&& s.len() <= usize::MAX / 4 ==> exists|e: EngineReport, w: EngineReport| {
        &&& reports(e, pass(ps, t0, s).1)
        &&& w.snapshots_seen == 0 && w.unmatched == 0 && w.ignored == 0 && w.suppressed == 0 && w.detections_opened == 0
        &&& #[trigger] merged(e, w) == r
    }
}

/// What one export tick wrote, summed over the writers.
#[derive(Debug, Clone, Copy, Default, PartialEq, Eq)]
pub struct ExportReport {
    pub rows_written: usize,
    pub write_failures: u32,
    pub retry_queue_dropped: u32,
    pub permanently_dropped_batches: u32,
}

impl ExportReport {
    /// Adds one writer's flush figures.
    pub fn merge(&mut self, rows_written: usize, write_failures: u32, retry_queue_dropped: u32, permanently_dropped_batches: u32)
        requires
            old(self).rows_written + rows_written <= usize::MAX,
            old(self).write_failures + write_failures <= u32::MAX,
            old(self).retry_queue_dropped + retry_queue_dropped <= u32::MAX,
            old(self).permanently_dropped_batches + permanently_dropped_batches <= u32::MAX,
        ensures
            final(self).rows_written == old(self).rows_written + rows_written,
            final(self).write_failures == old(self).write_failures + write_failures,
            final(self).retry_queue_dropped == old(self).retry_queue_dropped + retry_queue_dropped,
            final(self).permanently_dropped_batches == old(self).permanently_dropped_batches + permanently_dropped_batches,
    {
        self.rows_written = self.rows_written + rows_written;
        self.write_failures = self.write_failures + write_failures;
        self.retry_queue_dropped = self.retry_queue_dropped + retry_queue_dropped;
        self.permanently_dropped_batches = self.permanently_dropped_batches + permanently_dropped_batches;
    }
}

} // verus!
