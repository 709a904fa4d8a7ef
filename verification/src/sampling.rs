//! Sampling-rate resolution and correction.
//!
//! The priority order, highest first: record-level sampling information,
//! options-template sampling information, exporter-specific configured
//! sampling, the global default, and finally `1` (unsampled). A declared
//! rate of exactly `0` is never usable; it is treated as "not declared"
//! and resolution falls through to the next tier.

use vstd::prelude::*;

verus! {

/// A sampling rate of at least 1; `0` is unrepresentable.
#[derive(Debug, Clone, Copy, PartialEq, Eq, Hash)]
pub struct SamplingRate {
    rate: u32,
}

impl SamplingRate {
    /// The rate as a number.
    pub closed spec fn value(self) -> u32 {
        self.rate
    }

    #[verifier::type_invariant]
    spec fn rate_is_positive(self) -> bool {
        self.rate >= 1
    }

    /// `None` for a rate of `0`, the rate itself otherwise.
    pub fn new(rate: u32) -> (r: Option<SamplingRate>)
        ensures
            r is None <==> rate == 0,
            r matches Some(s) ==> s.value() == rate,
    {
        if rate == 0 {
            None
        } else {
            Some(SamplingRate { rate })
        }
    }

    /// Rate `1`: every packet counted once.
    pub fn unsampled() -> (r: SamplingRate)
        ensures
            r.value() == 1,
    {
        SamplingRate { rate: 1 }
    }

    pub fn get(&self) -> (r: u32)
        ensures
            r == self.value(),
            r >= 1,
    {
        proof {
            use_type_invariant(self);
        }
        self.rate
    }

    /// Scales a raw counter by this rate, reporting overflow rather than
    /// wrapping.
    pub fn apply(&self, raw: u64) -> (r: Result<u64, SamplingOverflow>)
        ensures
            r matches Ok(v) ==> v == raw * self.value(),
            r is Err <==> raw * self.value() > u64::MAX,
    {
        raw.checked_mul(self.get() as u64).ok_or(SamplingOverflow)
    }
}

/// Sampling correction overflowed `u64`.
#[derive(Debug, Clone, Copy, PartialEq, Eq, Structural)]
pub struct SamplingOverflow;

/// Which priority tier supplied the resolved sampling rate.
#[derive(Debug, Clone, Copy, PartialEq, Eq, Hash, Structural)]
pub enum SamplingSource {
    RecordLevel,
    OptionsTemplate,
    ExporterConfigured,
    GlobalDefault,
    /// No tier declared a usable (non-zero) rate; rate `1` was used.
    Unsampled,
}

/// The candidate rate from each tier, highest priority first. `None`
/// means the tier declared nothing; `Some(0)` means it declared an
/// unusable zero.
#[derive(Debug, Clone, Copy, Default, PartialEq, Eq)]
pub struct SamplingInputs {
    pub record_level: Option<u32>,
    pub options_template: Option<u32>,
    pub exporter_configured: Option<u32>,
    pub global_default: Option<u32>,
}

/// The result of resolving [`SamplingInputs`] down the priority chain.
#[derive(Debug, Clone, Copy, PartialEq, Eq)]
pub struct ResolvedSampling {
    pub rate: SamplingRate,
    pub source: SamplingSource,
    /// Some higher-priority tier declared an explicit `0` that was skipped.
    pub zero_rate_skipped: bool,
}

/// A tier's declaration is usable: present and non-zero.
pub open spec fn usable(v: Option<u32>) -> bool {
    v matches Some(r) && r != 0
}

/// A tier declared an explicit zero.
pub open spec fn declared_zero(v: Option<u32>) -> bool {
    v == Some(0u32)
}

/// The tiers of `inputs`, highest priority first.
pub open spec fn tiers(inputs: SamplingInputs) -> Seq<Option<u32>> {
    seq![inputs.record_level, inputs.options_template, inputs.exporter_configured, inputs.global_default]
}

/// The source that names tier `i`.
pub open spec fn tier_source(i: int) -> SamplingSource {
    if i == 0 {
        SamplingSource::RecordLevel
    } else if i == 1 {
        SamplingSource::OptionsTemplate
    } else if i == 2 {
        SamplingSource::ExporterConfigured
    } else if i == 3 {
        SamplingSource::GlobalDefault
    } else {
        SamplingSource::Unsampled
    }
}

/// Index of the first usable tier, or 4 when none is.
pub open spec fn first_usable(inputs: SamplingInputs) -> int {
    let t = tiers(inputs);
    if usable(t[0]) {
        0
    } else if usable(t[1]) {
        1
    } else if usable(t[2]) {
        2
    } else if usable(t[3]) {
        3
    } else {
        4
    }
}

/// What [`resolve`] returns for `inputs`: the first usable tier's rate
/// and source, or rate 1 from [`SamplingSource::Unsampled`]; together
/// with whether any tier above the chosen one declared zero.
pub open spec fn resolved_spec(inputs: SamplingInputs) -> (u32, SamplingSource, bool) {
    let k = first_usable(inputs);
    let t = tiers(inputs);
    let rate = if k < 4 { t[k].unwrap() } else { 1u32 };
    (rate, tier_source(k), exists|j: int| 0 <= j < k && declared_zero(#[trigger] t[j]))
}

fn consider(value: Option<u32>, zero_skipped: &mut bool) -> (r: Option<SamplingRate>)
    ensures
        r is Some <==> usable(value),
        r matches Some(s) ==> value == Some(s.value()),
        *final(zero_skipped) == (*old(zero_skipped) || declared_zero(value)),
{
    match value {
        Some(0) => {
            *zero_skipped = true;
            None
        },
        Some(r) => SamplingRate::new(r),
        None => None,
    }
}

/// Resolves a sampling rate per the documented priority order. Never
/// returns a rate of `0`.
pub fn resolve(inputs: &SamplingInputs) -> (r: ResolvedSampling)
    ensures
        r.rate.value() >= 1,
        (r.rate.value(), r.source, r.zero_rate_skipped) == resolved_spec(*inputs),
{
    let mut zero = false;
    let ghost t = tiers(*inputs);
    if let Some(rate) = consider(inputs.record_level, &mut zero) {
        return ResolvedSampling { rate, source: SamplingSource::RecordLevel, zero_rate_skipped: zero };
    }
    assert(zero == declared_zero(t[0]));
    if let Some(rate) = consider(inputs.options_template, &mut zero) {
        return ResolvedSampling { rate, source: SamplingSource::OptionsTemplate, zero_rate_skipped: zero };
    }
    assert(zero == (declared_zero(t[0]) || declared_zero(t[1])));
    if let Some(rate) = consider(inputs.exporter_configured, &mut zero) {
        assert(zero == (declared_zero(t[0]) || declared_zero(t[1])));
        return ResolvedSampling { rate, source: SamplingSource::ExporterConfigured, zero_rate_skipped: zero };
    }
    if let Some(rate) = consider(inputs.global_default, &mut zero) {
        assert(zero == (declared_zero(t[0]) || declared_zero(t[1]) || declared_zero(t[2])));
        return ResolvedSampling { rate, source: SamplingSource::GlobalDefault, zero_rate_skipped: zero };
    }
    assert(zero == (declared_zero(t[0]) || declared_zero(t[1]) || declared_zero(t[2]) || declared_zero(t[3])));
    ResolvedSampling { rate: SamplingRate::unsampled(), source: SamplingSource::Unsampled, zero_rate_skipped: zero }
}

} // verus!
