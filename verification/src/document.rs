//! Policy documents: policies as an operator writes them, and turning
//! them into the set the engine runs on.
//!
//! A document holds text and numbers and validates nothing; compiling
//! it parses every duration and threshold, fills in the defaults,
//! validates every policy and stops at the first problem, so a partially
//! valid file is never half-loaded.

use vstd::prelude::*;

verus! {

use crate::config::{duration_spec, magnitude_spec, parse_duration, render_duration, render_spec, Magnitude};
use crate::input::{AddressFamily, MetricKind, ScopeType, TrafficDirection};
use crate::net::{family_bits, IpAddress};
use crate::policy::{
    labels_in_key_order, labels_view, policy_error_text, policy_from_draft, threshold_lookup, thresholds_sorted, validate_spec, DetectionPolicy, ExecutionMode,
    PolicyDraft, PolicyError, PolicyErrorView, PolicySelector, Severity, TenantPrefixes, Thresholds,
    DEFAULT_CLEAR_PERCENT,
};
use crate::precedence::{ids_ascending, PolicySet};
use crate::render::{debug_quoted, debug_text, decimal, push_decimal, push_quoted, push_text, string_from_chars};
use crate::text::{digits_to_u64, digits_value, is_digit, trim_chars, trimmed};

/// The document schema this build understands.
pub const POLICY_SCHEMA_VERSION: u32 = 1;

/// Largest document accepted, in bytes, checked before parsing.
pub const MAX_DOCUMENT_BYTES: usize = 4194304;

/// Largest number of policies accepted from one document.
pub const MAX_POLICIES: usize = 10000;

/// Largest number of tenant prefixes accepted from one document.
pub const MAX_TENANT_PREFIXES: usize = 100000;

/// Why a policy document was refused.
#[derive(Debug, Clone, PartialEq, Eq)]
pub enum ConfigError {
    TooLarge { size: usize },
    Malformed(String),
    UnsupportedSchema { found: u32 },
    TooManyPolicies { count: usize },
    TooManyPrefixes { count: usize },
    Invalid { id: String, source: PolicyError },
    Field { id: String, field: &'static str, detail: String },
    Prefix { tenant: String, prefix: String, detail: String },
    DuplicateId { id: String },
}

/// A [`ConfigError`] with its text as characters.
pub enum ConfigErrorView {
    TooLarge(usize),
    Malformed(Seq<char>),
    UnsupportedSchema(u32),
    TooManyPolicies(usize),
    TooManyPrefixes(usize),
    Invalid(Seq<char>, PolicyErrorView),
    Field(Seq<char>, Seq<char>, Seq<char>),
    Prefix(Seq<char>, Seq<char>, Seq<char>),
    DuplicateId(Seq<char>),
}

impl View for ConfigError {
    type V = ConfigErrorView;

    open spec fn view(&self) -> ConfigErrorView {
        match self {
            ConfigError::TooLarge { size } => ConfigErrorView::TooLarge(*size),
            ConfigError::Malformed(m) => ConfigErrorView::Malformed(m@),
            ConfigError::UnsupportedSchema { found } => ConfigErrorView::UnsupportedSchema(*found),
            ConfigError::TooManyPolicies { count } => ConfigErrorView::TooManyPolicies(*count),
            ConfigError::TooManyPrefixes { count } => ConfigErrorView::TooManyPrefixes(*count),
            ConfigError::Invalid { id, source } => ConfigErrorView::Invalid(id@, source@),
            ConfigError::Field { id, field, detail } => ConfigErrorView::Field(id@, field@, detail@),
            ConfigError::Prefix { tenant, prefix, detail } => ConfigErrorView::Prefix(tenant@, prefix@, detail@),
            ConfigError::DuplicateId { id } => ConfigErrorView::DuplicateId(id@),
        }
    }
}

/// The message of a configuration error.
pub open spec fn config_error_text(e: ConfigErrorView) -> Seq<char> {
    match e {
        ConfigErrorView::TooLarge(size) => "policy document is "@ + decimal(size as nat) + " bytes, above the "@
            + decimal(MAX_DOCUMENT_BYTES as nat) + "-byte limit"@,
        ConfigErrorView::Malformed(m) => "policy document is not valid JSON: "@ + m,
        ConfigErrorView::UnsupportedSchema(found) => "policy document declares schemaVersion "@ + decimal(found as nat)
            + ", but this build understands "@ + decimal(POLICY_SCHEMA_VERSION as nat),
        ConfigErrorView::TooManyPolicies(count) => "policy document declares "@ + decimal(count as nat)
            + " policies, above the "@ + decimal(MAX_POLICIES as nat) + " limit"@,
        ConfigErrorView::TooManyPrefixes(count) => "policy document declares "@ + decimal(count as nat)
            + " tenant prefixes, above the "@ + decimal(MAX_TENANT_PREFIXES as nat) + " limit"@,
        ConfigErrorView::Invalid(id, source) => "policy "@ + debug_text(id) + ": "@ + policy_error_text(source),
        ConfigErrorView::Field(id, field, detail) => "policy "@ + debug_text(id) + " field "@ + field + ": "@ + detail,
        ConfigErrorView::Prefix(tenant, prefix, detail) => "tenant "@ + debug_text(tenant) + " prefix "@ + debug_text(prefix)
            + ": "@ + detail,
        ConfigErrorView::DuplicateId(id) => "duplicate policy id "@ + debug_text(id),
    }
}

impl ConfigError {
    /// The error's message.
    pub fn to_string(&self) -> (r: String)
        ensures
            r@ == config_error_text(self@),
    {
        let mut out: Vec<char> = Vec::new();
        match self {
            ConfigError::TooLarge { size } => {
                push_text(&mut out, "policy document is ");
                push_decimal(&mut out, *size as u128);
                push_text(&mut out, " bytes, above the ");
                push_decimal(&mut out, MAX_DOCUMENT_BYTES as u128);
                push_text(&mut out, "-byte limit");
            },
            ConfigError::Malformed(m) => {
                push_text(&mut out, "policy document is not valid JSON: ");
                push_text(&mut out, m.as_str());
            },
            ConfigError::UnsupportedSchema { found } => {
                push_text(&mut out, "policy document declares schemaVersion ");
                push_decimal(&mut out, *found as u128);
                push_text(&mut out, ", but this build understands ");
                push_decimal(&mut out, POLICY_SCHEMA_VERSION as u128);
            },
            ConfigError::TooManyPolicies { count } => {
                push_text(&mut out, "policy document declares ");
                push_decimal(&mut out, *count as u128);
                push_text(&mut out, " policies, above the ");
                push_decimal(&mut out, MAX_POLICIES as u128);
                push_text(&mut out, " limit");
            },
            ConfigError::TooManyPrefixes { count } => {
                push_text(&mut out, "policy document declares ");
                push_decimal(&mut out, *count as u128);
                push_text(&mut out, " tenant prefixes, above the ");
                push_decimal(&mut out, MAX_TENANT_PREFIXES as u128);
                push_text(&mut out, " limit");
            },
            ConfigError::Invalid { id, source } => {
                push_text(&mut out, "policy ");
                push_quoted(&mut out, id.as_str());
                push_text(&mut out, ": ");
                let m = source.to_string();
                push_text(&mut out, m.as_str());
            },
            ConfigError::Field { id, field, detail } => {
                push_text(&mut out, "policy ");
                push_quoted(&mut out, id.as_str());
                push_text(&mut out, " field ");
                push_text(&mut out, field);
                push_text(&mut out, ": ");
                push_text(&mut out, detail.as_str());
            },
            ConfigError::Prefix { tenant, prefix, detail } => {
                push_text(&mut out, "tenant ");
                push_quoted(&mut out, tenant.as_str());
                push_text(&mut out, " prefix ");
                push_quoted(&mut out, prefix.as_str());
                push_text(&mut out, ": ");
                push_text(&mut out, detail.as_str());
            },
            ConfigError::DuplicateId { id } => {
                push_text(&mut out, "duplicate policy id ");
                push_quoted(&mut out, id.as_str());
            },
        }
        string_from_chars(out)
    }
}

/// Values every policy inherits unless it says otherwise.
#[derive(Debug, Clone, PartialEq, Eq)]
pub struct PolicyDefaults {
    pub clear_percent: u8,
    pub cooldown: Option<String>,
    pub hold_down: Option<String>,
    pub event_update_interval: Option<String>,
    pub severity: Option<Severity>,
    pub execution_mode: Option<ExecutionMode>,
}

impl Default for PolicyDefaults {
    fn default() -> (r: PolicyDefaults)
        ensures
            r.clear_percent == DEFAULT_CLEAR_PERCENT,
            r.cooldown is None,
            r.hold_down is None,
            r.event_update_interval is None,
            r.severity is None,
            r.execution_mode is None,
    {
        PolicyDefaults {
            clear_percent: DEFAULT_CLEAR_PERCENT,
            cooldown: None,
            hold_down: None,
            event_update_interval: None,
            severity: None,
            execution_mode: None,
        }
    }
}

/// One tenant's address space, as CIDR strings.
#[derive(Debug, Clone, PartialEq, Eq)]
pub struct TenantEntry {
    pub tenant: String,
    pub prefixes: Vec<String>,
}

/// One policy, as written. Thresholds and labels are in key order.
#[derive(Debug, Clone, PartialEq, Eq)]
pub struct PolicyEntry {
    pub id: String,
    pub name: String,
    pub description: Option<String>,
    pub enabled: bool,
    pub tenant: String,
    pub scope_type: ScopeType,
    pub selector: PolicySelector,
    pub address_family: Option<AddressFamily>,
    pub direction: TrafficDirection,
    /// A duration with a unit suffix, such as `"5s"`.
    pub window: String,
    pub thresholds: Vec<(MetricKind, Magnitude)>,
    pub clear_percent: Option<u8>,
    pub trigger_for: String,
    pub clear_for: String,
    pub cooldown: Option<String>,
    pub hold_down: Option<String>,
    pub event_update_interval: Option<String>,
    pub severity: Option<Severity>,
    pub execution_mode: Option<ExecutionMode>,
    pub priority: i32,
    pub labels: Vec<(String, String)>,
    pub version: u32,
}

/// A whole policy document, as written.
#[derive(Debug, Clone, PartialEq, Eq)]
pub struct PolicyDocument {
    pub schema_version: u32,
    pub defaults: PolicyDefaults,
    pub tenants: Vec<TenantEntry>,
    pub policies: Vec<PolicyEntry>,
}

/// What a document compiles to.
pub struct CompiledPolicies {
    pub policies: PolicySet,
    pub tenant_prefixes: TenantPrefixes,
}

/// The value of a written threshold.
pub open spec fn magnitude_value(m: Magnitude) -> Result<u64, Seq<char>> {
    match m {
        Magnitude::Number(v) => Ok(v),
        Magnitude::Text(t) => magnitude_spec(t@),
    }
}

/// The first written threshold whose value cannot be read.
pub open spec fn threshold_failure(ts: Seq<(MetricKind, Magnitude)>) -> Option<int>
    decreases ts.len(),
{
    if ts.len() == 0 {
        None
    } else {
        match threshold_failure(ts.drop_last()) {
            Some(i) => Some(i),
            None => if magnitude_value(ts.last().1) is Err { Some(ts.len() - 1) } else { None },
        }
    }
}

/// The last value written for metric `k`, if any.
pub open spec fn written_threshold(ts: Seq<(MetricKind, Magnitude)>, k: MetricKind) -> Option<u64>
    decreases ts.len(),
{
    if ts.len() == 0 {
        None
    } else if ts.last().0 == k {
        match magnitude_value(ts.last().1) {
            Ok(v) => Some(v),
            Err(_) => None,
        }
    } else {
        written_threshold(ts.drop_last(), k)
    }
}

/// An optional duration falling back to a default text, zero when
/// neither is written.
pub open spec fn optional_duration(own: Option<String>, fallback: Option<String>) -> Result<u128, Seq<char>> {
    match own {
        Some(t) => duration_spec(t@),
        None => match fallback {
            Some(t) => duration_spec(t@),
            None => Ok(0),
        },
    }
}

/// The update interval: the policy's, else the defaults', else a
/// minute.
pub open spec fn update_interval(own: Option<String>, fallback: Option<String>) -> Result<u128, Seq<char>> {
    match own {
        Some(t) => duration_spec(t@),
        None => match fallback {
            Some(t) => duration_spec(t@),
            None => Ok(60_000_000_000),
        },
    }
}

/// The field error of a policy, naming the field and what is wrong.
pub open spec fn field_error(id: Seq<char>, field: Seq<char>, detail: Seq<char>) -> Option<ConfigErrorView> {
    Some(ConfigErrorView::Field(id, field, detail))
}

/// The first field of a written policy that cannot be read: its
/// thresholds in order, then window, triggerFor, clearFor, cooldown,
/// holdDown and eventUpdateInterval.
pub open spec fn draft_error(e: PolicyEntry, d: PolicyDefaults) -> Option<ConfigErrorView> {
    let id = e.id@;
    match threshold_failure(e.thresholds@) {
        Some(i) => field_error(id, "thresholds"@, e.thresholds@[i].0.name() + ": "@ + magnitude_value(e.thresholds@[i].1)->Err_0),
        None => if duration_spec(e.window@) is Err {
            field_error(id, "window"@, duration_spec(e.window@)->Err_0)
        } else if duration_spec(e.trigger_for@) is Err {
            field_error(id, "triggerFor"@, duration_spec(e.trigger_for@)->Err_0)
        } else if duration_spec(e.clear_for@) is Err {
            field_error(id, "clearFor"@, duration_spec(e.clear_for@)->Err_0)
        } else if optional_duration(e.cooldown, d.cooldown) is Err {
            field_error(id, "cooldown"@, optional_duration(e.cooldown, d.cooldown)->Err_0)
        } else if optional_duration(e.hold_down, d.hold_down) is Err {
            field_error(id, "holdDown"@, optional_duration(e.hold_down, d.hold_down)->Err_0)
        } else if update_interval(e.event_update_interval, d.event_update_interval) is Err {
            field_error(id, "eventUpdateInterval"@, update_interval(e.event_update_interval, d.event_update_interval)->Err_0)
        } else {
            None
        },
    }
}

/// `dr` is the draft of a readable written policy: every field carried
/// over, durations parsed, thresholds resolved, and the defaults filled
/// in (clear percentage, timers, severity `Major`, mode `AlertOnly`).
pub open spec fn draft_of(dr: PolicyDraft, e: PolicyEntry, d: PolicyDefaults) -> bool {
    &&& dr.id@ == e.id@
    &&& dr.name@ == e.name@
    &&& (dr.description is Some <==> e.description is Some)
    &&& (dr.description matches Some(x) ==> x@ == e.description.unwrap()@)
    &&& dr.enabled == e.enabled
    &&& dr.tenant@ == e.tenant@
    &&& dr.scope_type == e.scope_type
    &&& dr.selector@ == e.selector@
    &&& dr.address_family == e.address_family
    &&& dr.direction == e.direction
    &&& Ok::<u128, Seq<char>>(dr.window) == duration_spec(e.window@)
    &&& thresholds_sorted(dr.thresholds@)
    &&& (forall|k: MetricKind| #[trigger] threshold_lookup(dr.thresholds@, k) == written_threshold(e.thresholds@, k))
    &&& dr.clear_percent == (match e.clear_percent { Some(p) => p, None => d.clear_percent })
    &&& Ok::<u128, Seq<char>>(dr.trigger_for) == duration_spec(e.trigger_for@)
    &&& Ok::<u128, Seq<char>>(dr.clear_for) == duration_spec(e.clear_for@)
    &&& Ok::<u128, Seq<char>>(dr.cooldown) == optional_duration(e.cooldown, d.cooldown)
    &&& Ok::<u128, Seq<char>>(dr.hold_down) == optional_duration(e.hold_down, d.hold_down)
    &&& Ok::<u128, Seq<char>>(dr.event_update_interval) == update_interval(e.event_update_interval, d.event_update_interval)
    &&& dr.severity == (match e.severity { Some(s) => s, None => match d.severity { Some(s) => s, None => Severity::Major } })
    &&& dr.execution_mode == (match e.execution_mode { Some(m) => m, None => match d.execution_mode { Some(m) => m, None => ExecutionMode::AlertOnly } })
    &&& dr.priority == e.priority
    &&& labels_view(dr.labels@) == labels_view(e.labels@)
    &&& dr.version == e.version
}

fn copy_text(o: &Option<String>) -> (r: Option<String>)
    ensures
        r is Some <==> o is Some,
        r matches Some(x) ==> x@ == o.unwrap()@,
{
    match o {
        Some(x) => Some(x.clone()),
        None => None,
    }
}

fn copy_labels(l: &Vec<(String, String)>) -> (r: Vec<(String, String)>)
    ensures
        labels_view(r@) == labels_view(l@),
{
    let mut out: Vec<(String, String)> = Vec::new();
    let mut i: usize = 0;
    while i < l.len()
        invariant
            i <= l@.len(),
            out@.len() == i,
            forall|j: int| 0 <= j < i ==> (#[trigger] out@[j]).0@ == l@[j].0@ && out@[j].1@ == l@[j].1@,
        decreases l@.len() - i,
    {
        out.push((l[i].0.clone(), l[i].1.clone()));
        i = i + 1;
    }
    proof {
        assert(labels_view(out@) =~= labels_view(l@));
    }
    out
}

fn field(id: &String, name: &'static str, detail: String) -> (r: ConfigError)
    ensures
        r@ == ConfigErrorView::Field(id@, name@, detail@),
{
    ConfigError::Field { id: id.clone(), field: name, detail }
}

fn read_duration(id: &String, name: &'static str, text: &String) -> (r: Result<u128, ConfigError>)
    ensures
        match r {
            Ok(v) => duration_spec(text@) == Ok::<u128, Seq<char>>(v),
            Err(e) => duration_spec(text@) is Err && e@ == ConfigErrorView::Field(id@, name@, duration_spec(text@)->Err_0),
        },
{
    match parse_duration(text.as_str()) {
        Ok(v) => Ok(v),
        Err(detail) => Err(field(id, name, detail)),
    }
}

fn read_optional(id: &String, name: &'static str, own: &Option<String>, fallback: &Option<String>, absent: u128) -> (r: Result<u128, ConfigError>)
    ensures
        ({
            let expect: Result<u128, Seq<char>> = match *own {
                Some(t) => duration_spec(t@),
                None => match *fallback {
                    Some(t) => duration_spec(t@),
                    None => Ok(absent),
                },
            };
            match r {
                Ok(v) => expect == Ok::<u128, Seq<char>>(v),
                Err(e) => expect is Err && e@ == ConfigErrorView::Field(id@, name@, expect->Err_0),
            }
        }),
{
    let chosen: Option<&String> = match own {
        Some(t) => Some(t),
        None => match fallback {
            Some(t) => Some(t),
            None => None,
        },
    };
    match chosen {
        Some(t) => read_duration(id, name, t),
        None => Ok(absent),
    }
}

proof fn lemma_written_step(ts: Seq<(MetricKind, Magnitude)>, n: int, v: u64, k: MetricKind)
    requires
        0 <= n < ts.len(),
        magnitude_value(ts[n].1) == Ok::<u64, Seq<char>>(v),
    ensures
        written_threshold(ts.subrange(0, n + 1), k) == if k == ts[n].0 { Some(v) } else { written_threshold(ts.subrange(0, n), k) },
{
    assert(ts.subrange(0, n + 1).drop_last() =~= ts.subrange(0, n));
}

fn read_thresholds(e: &PolicyEntry) -> (r: Result<Thresholds, ConfigError>)
    ensures
        match r {
            Ok(t) => threshold_failure(e.thresholds@) is None && thresholds_sorted(t@)
                && forall|k: MetricKind| #[trigger] threshold_lookup(t@, k) == written_threshold(e.thresholds@, k),
            Err(err) => threshold_failure(e.thresholds@) matches Some(i)
                && err@ == ConfigErrorView::Field(e.id@, "thresholds"@, e.thresholds@[i].0.name() + ": "@ + magnitude_value(e.thresholds@[i].1)->Err_0),
        },
{
    let ts = &e.thresholds;
    let mut t = Thresholds::new();
    let mut i: usize = 0;
    proof {
        assert(ts@.subrange(0, 0) =~= Seq::<(MetricKind, Magnitude)>::empty());
    }
    while i < ts.len()
        invariant
            i <= ts@.len(),
            ts == e.thresholds,
            threshold_failure(ts@.subrange(0, i as int)) is None,
            thresholds_sorted(t@),
            forall|k: MetricKind| #[trigger] threshold_lookup(t@, k) == written_threshold(ts@.subrange(0, i as int), k),
        decreases ts@.len() - i,
    {
        let metric = ts[i].0;
        proof {
            assert(ts@.subrange(0, i + 1).drop_last() =~= ts@.subrange(0, i as int));
        }
        match ts[i].1.resolve() {
            Ok(v) => {
                proof {
                    assert(magnitude_value(ts@[i as int].1) == Ok::<u64, Seq<char>>(v));
                }
                let ghost before = t@;
                t = t.with(metric, v);
                proof {
                    assert forall|k: MetricKind| #[trigger] threshold_lookup(t@, k) == written_threshold(ts@.subrange(0, i + 1), k) by {
                        lemma_written_step(ts@, i as int, v, k);
                    }
                }
            },
            Err(detail) => {
                let mut text: Vec<char> = Vec::new();
                push_text(&mut text, metric.as_str());
                push_text(&mut text, ": ");
                push_text(&mut text, detail.as_str());
                proof {
                    reveal_strlit(": ");
                    reveal_strlit("thresholds");
                    assert(magnitude_value(ts@[i as int].1) == Err::<u64, Seq<char>>(detail@));
                    assert(text@ =~= metric.name() + ": "@ + detail@);
                    lemma_failure_prefix(ts@, i as int);
                }
                return Err(field(&e.id, "thresholds", string_from_chars(text)));
            },
        }
        i = i + 1;
    }
    proof {
        assert(ts@.subrange(0, ts@.len() as int) =~= ts@);
    }
    Ok(t)
}

/// A failure at position `i` with none before it is the first failure.
proof fn lemma_failure_prefix(ts: Seq<(MetricKind, Magnitude)>, i: int)
    requires
        0 <= i < ts.len(),
        threshold_failure(ts.subrange(0, i)) is None,
        magnitude_value(ts[i].1) is Err,
    ensures
        threshold_failure(ts) == Some(i),
    decreases ts.len(),
{
    if ts.len() == i + 1 {
        assert(ts.drop_last() =~= ts.subrange(0, i));
    } else {
        assert(ts.drop_last().subrange(0, i) =~= ts.subrange(0, i));
        lemma_failure_prefix(ts.drop_last(), i);
    }
}

impl PolicyEntry {
    /// The draft of this policy with `defaults` filled in, or the first
    /// field that cannot be read (see [`draft_error`]).
    pub fn to_draft(&self, defaults: &PolicyDefaults) -> (r: Result<PolicyDraft, ConfigError>)
        ensures
            match r {
                Ok(dr) => draft_error(*self, *defaults) is None && draft_of(dr, *self, *defaults),
                Err(e) => draft_error(*self, *defaults) == Some(e@),
            },
    {
        proof {
            reveal_strlit("window");
            reveal_strlit("triggerFor");
            reveal_strlit("clearFor");
            reveal_strlit("cooldown");
            reveal_strlit("holdDown");
            reveal_strlit("eventUpdateInterval");
        }
        let thresholds = match read_thresholds(self) {
            Ok(t) => t,
            Err(e) => {
                return Err(e);
            },
        };
        let window = match read_duration(&self.id, "window", &self.window) {
            Ok(v) => v,
            Err(e) => {
                return Err(e);
            },
        };
        let trigger_for = match read_duration(&self.id, "triggerFor", &self.trigger_for) {
            Ok(v) => v,
            Err(e) => {
                return Err(e);
            },
        };
        let clear_for = match read_duration(&self.id, "clearFor", &self.clear_for) {
            Ok(v) => v,
            Err(e) => {
                return Err(e);
            },
        };
        let cooldown = match read_optional(&self.id, "cooldown", &self.cooldown, &defaults.cooldown, 0) {
            Ok(v) => v,
            Err(e) => {
                return Err(e);
            },
        };
        let hold_down = match read_optional(&self.id, "holdDown", &self.hold_down, &defaults.hold_down, 0) {
            Ok(v) => v,
            Err(e) => {
                return Err(e);
            },
        };
        let event_update_interval = match read_optional(
            &self.id,
            "eventUpdateInterval",
            &self.event_update_interval,
            &defaults.event_update_interval,
            60_000_000_000,
        ) {
            Ok(v) => v,
            Err(e) => {
                return Err(e);
            },
        };
        let severity = match self.severity {
            Some(s) => s,
            None => match defaults.severity {
                Some(s) => s,
                None => Severity::Major,
            },
        };
        let execution_mode = match self.execution_mode {
            Some(m) => m,
            None => match defaults.execution_mode {
                Some(m) => m,
                None => ExecutionMode::AlertOnly,
            },
        };
        Ok(PolicyDraft {
            id: self.id.clone(),
            name: self.name.clone(),
            description: copy_text(&self.description),
            enabled: self.enabled,
            tenant: self.tenant.clone(),
            scope_type: self.scope_type,
            selector: self.selector.duplicate(),
            address_family: self.address_family,
            direction: self.direction,
            window,
            thresholds,
            clear_percent: match self.clear_percent {
                Some(p) => p,
                None => defaults.clear_percent,
            },
            trigger_for,
            clear_for,
            cooldown,
            hold_down,
            event_update_interval,
            severity,
            execution_mode,
            priority: self.priority,
            labels: copy_labels(&self.labels),
            version: self.version,
        })
    }
}

proof fn lemma_lookup_member(s: Seq<(MetricKind, u64)>, k: MetricKind)
    ensures
        threshold_lookup(s, k) matches Some(v) ==> exists|i: int| 0 <= i < s.len() && s[i] == (k, v),
        threshold_lookup(s, k) is None ==> forall|i: int| 0 <= i < s.len() ==> s[i].0 != k,
    decreases s.len(),
{
    if s.len() > 0 {
        lemma_lookup_member(s.drop_last(), k);
        if s.last().0 != k {
            if let Some(v) = threshold_lookup(s.drop_last(), k) {
                let i = choose|i: int| 0 <= i < s.drop_last().len() && s.drop_last()[i] == (k, v);
                assert(s[i] == (k, v));
            } else {
                assert forall|i: int| 0 <= i < s.len() implies s[i].0 != k by {
                    if i < s.len() - 1 {
                        assert(s.drop_last()[i] == s[i]);
                    }
                }
            }
        }
    }
}

proof fn lemma_sorted_last(s: Seq<(MetricKind, u64)>, i: int)
    requires
        thresholds_sorted(s),
        0 <= i < s.len() - 1,
    ensures
        crate::input::metric_index(s[i].0) < crate::input::metric_index(s.last().0),
{
}

/// Two sorted threshold lists with the same lookups are the same list.
proof fn lemma_thresholds_determined(s1: Seq<(MetricKind, u64)>, s2: Seq<(MetricKind, u64)>)
    requires
        thresholds_sorted(s1),
        thresholds_sorted(s2),
        forall|k: MetricKind| #[trigger] threshold_lookup(s1, k) == threshold_lookup(s2, k),
    ensures
        s1 == s2,
    decreases s1.len() + s2.len(),
{
    if s1.len() == 0 {
        if s2.len() > 0 {
            assert(threshold_lookup(s2, s2.last().0) is Some);
            lemma_lookup_member(s1, s2.last().0);
        }
        assert(s1 =~= s2);
    } else if s2.len() == 0 {
        assert(threshold_lookup(s1, s1.last().0) is Some);
        lemma_lookup_member(s2, s1.last().0);
    } else {
        let a = s1.last();
        let b = s2.last();
        assert(threshold_lookup(s1, a.0) == Some(a.1));
        assert(threshold_lookup(s2, b.0) == Some(b.1));
        lemma_lookup_member(s2, a.0);
        lemma_lookup_member(s1, b.0);
        let j = choose|j: int| 0 <= j < s2.len() && s2[j] == (a.0, a.1);
        let i = choose|i: int| 0 <= i < s1.len() && s1[i] == (b.0, b.1);
        if j < s2.len() - 1 {
            lemma_sorted_last(s2, j);
        }
        if i < s1.len() - 1 {
            lemma_sorted_last(s1, i);
        }
        crate::input::lemma_metric_index_injective(a.0, b.0);
        assert(a == b);
        let t1 = s1.drop_last();
        let t2 = s2.drop_last();
        assert forall|k: MetricKind| #[trigger] threshold_lookup(t1, k) == threshold_lookup(t2, k) by {
            if k == a.0 {
                lemma_lookup_member(t1, k);
                lemma_lookup_member(t2, k);
                if threshold_lookup(t1, k) is Some {
                    let m = choose|m: int| 0 <= m < t1.len() && t1[m].0 == k && t1[m] == (k, threshold_lookup(t1, k).unwrap());
                    lemma_sorted_last(s1, m);
                    crate::input::lemma_metric_index_injective(k, a.0);
                }
                if threshold_lookup(t2, k) is Some {
                    let m = choose|m: int| 0 <= m < t2.len() && t2[m].0 == k && t2[m] == (k, threshold_lookup(t2, k).unwrap());
                    lemma_sorted_last(s2, m);
                    crate::input::lemma_metric_index_injective(k, a.0);
                }
            } else {
                assert(threshold_lookup(s1, k) == threshold_lookup(t1, k));
                assert(threshold_lookup(s2, k) == threshold_lookup(t2, k));
            }
        }
        lemma_thresholds_determined(t1, t2);
        assert(s1 =~= t1.push(a));
        assert(s2 =~= t2.push(b));
    }
}

/// Any two drafts of one written policy validate alike.
proof fn lemma_drafts_validate_alike(d1: PolicyDraft, d2: PolicyDraft, e: PolicyEntry, d: PolicyDefaults, owned: Seq<(Seq<char>, IpAddress, u8)>)
    requires
        draft_of(d1, e, d),
        draft_of(d2, e, d),
    ensures
        validate_spec(d1, owned) == validate_spec(d2, owned),
{
    lemma_thresholds_determined(d1.thresholds@, d2.thresholds@);
    assert(d1.description matches Some(x) ==> x@ == d2.description.unwrap()@);
}

/// The result of validating a readable written policy.
pub open spec fn entry_validation(e: PolicyEntry, d: PolicyDefaults, owned: Seq<(Seq<char>, IpAddress, u8)>) -> Result<(), PolicyErrorView> {
    validate_spec(choose|dr: PolicyDraft| draft_of(dr, e, d), owned)
}

/// What is wrong with one written policy, if anything: an unreadable
/// field, else the first rule its draft breaks.
pub open spec fn entry_check(e: PolicyEntry, d: PolicyDefaults, owned: Seq<(Seq<char>, IpAddress, u8)>) -> Option<ConfigErrorView> {
    match draft_error(e, d) {
        Some(x) => Some(x),
        None => match entry_validation(e, d, owned) {
            Err(pe) => Some(ConfigErrorView::Invalid(e.id@, pe)),
            Ok(_) => None,
        },
    }
}

/// The first problem of a list of written policies, in order: a policy
/// whose id an earlier one already used, else its own problem.
pub open spec fn document_problem(es: Seq<PolicyEntry>, d: PolicyDefaults, owned: Seq<(Seq<char>, IpAddress, u8)>) -> Option<ConfigErrorView>
    decreases es.len(),
{
    if es.len() == 0 {
        None
    } else {
        match document_problem(es.drop_last(), d, owned) {
            Some(x) => Some(x),
            None => if exists|j: int| 0 <= j < es.len() - 1 && #[trigger] es[j].id@ == es.last().id@ {
                Some(ConfigErrorView::DuplicateId(es.last().id@))
            } else {
                entry_check(es.last(), d, owned)
            },
        }
    }
}

/// `p` is the validated policy of the written policy `e`.
pub open spec fn compiled_from(p: DetectionPolicy, e: PolicyEntry, d: PolicyDefaults) -> bool {
    exists|dr: PolicyDraft| draft_of(dr, e, d) && policy_from_draft(p, dr)
}

/// Some policy of `ps` is the validated policy of `e`.
pub open spec fn compiled_into(ps: Seq<DetectionPolicy>, e: PolicyEntry, d: PolicyDefaults) -> bool {
    exists|j: int| 0 <= j < ps.len() && compiled_from(ps[j], e, d)
}

/// `p` is the validated policy of some written policy of `es`.
pub open spec fn written_in(p: DetectionPolicy, es: Seq<PolicyEntry>, d: PolicyDefaults) -> bool {
    exists|i: int| 0 <= i < es.len() && compiled_from(p, es[i], d)
}

proof fn lemma_compile_prefix(es: Seq<PolicyEntry>, d: PolicyDefaults, owned: Seq<(Seq<char>, IpAddress, u8)>, k: int)
    requires
        0 <= k <= es.len(),
        document_problem(es.subrange(0, k), d, owned) is Some,
    ensures
        document_problem(es, d, owned) == document_problem(es.subrange(0, k), d, owned),
    decreases es.len(),
{
    if k < es.len() {
        assert(es.drop_last().subrange(0, k) =~= es.subrange(0, k));
        lemma_compile_prefix(es.drop_last(), d, owned, k);
    } else {
        assert(es.subrange(0, k) =~= es);
    }
}

proof fn lemma_no_repeat(s: Seq<DetectionPolicy>)
    requires
        forall|i: int, j: int| 0 <= i < j < s.len() ==> (#[trigger] s[i]).id@ != (#[trigger] s[j]).id@,
    ensures
        crate::precedence::first_repeat(s) is None,
    decreases s.len(),
{
    if s.len() > 0 {
        assert forall|i: int, j: int| 0 <= i < j < s.drop_last().len() implies (#[trigger] s.drop_last()[i]).id@ != (#[trigger] s.drop_last()[j]).id@ by {
            assert(s.drop_last()[i] == s[i] && s.drop_last()[j] == s[j]);
        }
        lemma_no_repeat(s.drop_last());
        assert(!exists|j: int| 0 <= j < s.len() - 1 && #[trigger] s[j].id@ == s.last().id@);
    }
}

impl PolicyDocument {
    /// Validates every policy against `tenant_prefixes` and builds the
    /// set the engine runs on, stopping at the first problem (see
    /// [`document_problem`]): no partially valid document is half-loaded.
    pub fn compile_with(&self, tenant_prefixes: TenantPrefixes) -> (r: Result<CompiledPolicies, ConfigError>)
        requires
            forall|i: int| 0 <= i < self.policies@.len() ==> labels_in_key_order(labels_view((#[trigger] self.policies@[i]).labels@)),
        ensures
            match r {
                Err(e) => document_problem(self.policies@, self.defaults, tenant_prefixes@) == Some(e@),
                Ok(c) => {
                    &&& document_problem(self.policies@, self.defaults, tenant_prefixes@) is None
                    &&& c.tenant_prefixes@ == tenant_prefixes@
                    &&& c.policies@.len() == self.policies@.len()
                    &&& ids_ascending(c.policies@)
                    &&& forall|i: int| 0 <= i < self.policies@.len() ==> compiled_into(c.policies@, #[trigger] self.policies@[i], self.defaults)
                    &&& forall|j: int| 0 <= j < c.policies@.len() ==> written_in(#[trigger] c.policies@[j], self.policies@, self.defaults)
                    &&& forall|j: int| 0 <= j < c.policies@.len() ==> labels_in_key_order(labels_view((#[trigger] c.policies@[j]).labels@))
                },
            },
    {
        let es = &self.policies;
        let ghost owned = tenant_prefixes@;
        let ghost d = self.defaults;
        let mut out: Vec<DetectionPolicy> = Vec::new();
        let mut i: usize = 0;
        proof {
            assert(es@.subrange(0, 0) =~= Seq::<PolicyEntry>::empty());
        }
        while i < es.len()
            invariant
                i <= es@.len(),
                es == self.policies,
                d == self.defaults,
                owned == tenant_prefixes@,
                out@.len() == i,
                forall|m: int| 0 <= m < es@.len() ==> labels_in_key_order(labels_view((#[trigger] es@[m]).labels@)),
                forall|m: int| 0 <= m < i ==> labels_in_key_order(labels_view((#[trigger] out@[m]).labels@)),
                document_problem(es@.subrange(0, i as int), d, owned) is None,
                forall|j: int| 0 <= j < i ==> (#[trigger] out@[j]).id@ == es@[j].id@ && compiled_from(out@[j], es@[j], d),
                forall|a: int, b: int| 0 <= a < b < i ==> (#[trigger] es@[a]).id@ != (#[trigger] es@[b]).id@,
            decreases es@.len() - i,
        {
            let ghost pre = es@.subrange(0, i as int);
            let ghost cur = es@.subrange(0, i + 1);
            proof {
                assert(cur.drop_last() =~= pre);
                assert(cur.last() == es@[i as int]);
            }
            let mut j: usize = 0;
            while j < i
                invariant
                    j <= i < es@.len(),
                    es == self.policies,
                    d == self.defaults,
                    owned == tenant_prefixes@,
                    cur == es@.subrange(0, i + 1),
                    pre == es@.subrange(0, i as int),
                    cur.drop_last() == pre,
                    document_problem(pre, d, owned) is None,
                    forall|m: int| 0 <= m < j ==> es@[m].id@ != es@[i as int].id@,
                decreases i - j,
            {
                if crate::text::text_eq(es[j].id.as_str(), es[i].id.as_str()) {
                    proof {
                        assert(cur[j as int].id@ == cur.last().id@);
                        assert(document_problem(cur, d, owned) == Some(ConfigErrorView::DuplicateId(es@[i as int].id@)));
                        lemma_compile_prefix(es@, d, owned, i + 1);
                    }
                    return Err(ConfigError::DuplicateId { id: es[i].id.clone() });
                }
                j = j + 1;
            }
            proof {
                assert forall|m: int| 0 <= m < cur.len() - 1 implies !(#[trigger] cur[m].id@ == cur.last().id@) by {
                    assert(cur[m] == es@[m]);
                }
            }
            let draft = match es[i].to_draft(&self.defaults) {
                Ok(dr) => dr,
                Err(e) => {
                    proof {
                        assert(document_problem(cur, d, owned) == Some(e@));
                        lemma_compile_prefix(es@, d, owned, i + 1);
                    }
                    return Err(e);
                },
            };
            let ghost dr = draft;
            proof {
                let chosen = choose|x: PolicyDraft| draft_of(x, es@[i as int], d);
                lemma_drafts_validate_alike(dr, chosen, es@[i as int], d, owned);
                assert(labels_view(dr.labels@) == labels_view(es@[i as int].labels@));
            }
            let policy = match draft.validate(&tenant_prefixes) {
                Ok(p) => p,
                Err(source) => {
                    proof {
                        assert(document_problem(cur, d, owned) == Some(ConfigErrorView::Invalid(es@[i as int].id@, source@)));
                        lemma_compile_prefix(es@, d, owned, i + 1);
                    }
                    return Err(ConfigError::Invalid { id: es[i].id.clone(), source });
                },
            };
            proof {
                assert(document_problem(cur, d, owned) is None);
                assert(compiled_from(policy, es@[i as int], d));
            }
            out.push(policy);
            i = i + 1;
        }
        proof {
            assert(es@.subrange(0, es@.len() as int) =~= es@);
            assert forall|a: int, b: int| 0 <= a < b < out@.len() implies (#[trigger] out@[a]).id@ != (#[trigger] out@[b]).id@ by {
                assert(out@[a].id@ == es@[a].id@);
                assert(out@[b].id@ == es@[b].id@);
            }
            lemma_no_repeat(out@);
        }
        let ghost listed = out@;
        let policies = match PolicySet::from_policies(out) {
            Ok(set) => set,
            Err(source) => {
                return Err(match source {
                    PolicyError::DuplicateId { id } => ConfigError::DuplicateId { id },
                    other => ConfigError::Invalid { id: String::new(), source: other },
                });
            },
        };
        proof {
            assert forall|m: int| 0 <= m < es@.len() implies compiled_into(policies@, #[trigger] es@[m], d) by {
                assert(listed.contains(listed[m]));
                assert(policies@.contains(listed[m]));
                let j = choose|j: int| 0 <= j < policies@.len() && policies@[j] == listed[m];
                assert(compiled_from(policies@[j], es@[m], d));
            }
            assert forall|j: int| 0 <= j < policies@.len() implies written_in(#[trigger] policies@[j], es@, d) by {
                assert(policies@.contains(policies@[j]));
                assert(listed.contains(policies@[j]));
                let m = choose|m: int| 0 <= m < listed.len() && listed[m] == policies@[j];
                assert(compiled_from(policies@[j], es@[m], d));
            }
            assert forall|j: int| 0 <= j < policies@.len() implies labels_in_key_order(labels_view((#[trigger] policies@[j]).labels@)) by {
                assert(policies@.contains(policies@[j]));
                assert(listed.contains(policies@[j]));
                let m = choose|m: int| 0 <= m < listed.len() && listed[m] == policies@[j];
                assert(labels_in_key_order(labels_view(listed[m].labels@)));
            }
        }
        Ok(CompiledPolicies { policies, tenant_prefixes })
    }
}

/// Refuses a document above [`MAX_DOCUMENT_BYTES`], before it is
/// parsed.
pub fn check_size(len: usize) -> (r: Result<(), ConfigError>)
    ensures
        r is Ok <==> len <= MAX_DOCUMENT_BYTES,
        r matches Err(e) ==> e@ == ConfigErrorView::TooLarge(len),
{
    if len > MAX_DOCUMENT_BYTES {
        Err(ConfigError::TooLarge { size: len })
    } else {
        Ok(())
    }
}

/// The number of tenant prefixes a document declares.
pub open spec fn prefix_total(tenants: Seq<TenantEntry>) -> nat
    decreases tenants.len(),
{
    if tenants.len() == 0 {
        0
    } else {
        prefix_total(tenants.drop_last()) + tenants.last().prefixes@.len()
    }
}

impl PolicyDocument {
    /// The checks a parsed document must pass before it is used: the
    /// schema version this build understands, then the policy limit.
    pub fn accept(self) -> (r: Result<PolicyDocument, ConfigError>)
        ensures
            self.schema_version != POLICY_SCHEMA_VERSION ==> (r matches Err(e) && e@ == ConfigErrorView::UnsupportedSchema(self.schema_version)),
            self.schema_version == POLICY_SCHEMA_VERSION && self.policies@.len() > MAX_POLICIES ==> (r matches Err(e)
                && e@ == ConfigErrorView::TooManyPolicies(self.policies@.len() as usize)),
            self.schema_version == POLICY_SCHEMA_VERSION && self.policies@.len() <= MAX_POLICIES ==> r == Ok::<PolicyDocument, ConfigError>(self),
    {
        if self.schema_version != POLICY_SCHEMA_VERSION {
            return Err(ConfigError::UnsupportedSchema { found: self.schema_version });
        }
        if self.policies.len() > MAX_POLICIES {
            return Err(ConfigError::TooManyPolicies { count: self.policies.len() });
        }
        Ok(self)
    }

    /// Refuses a document declaring more than [`MAX_TENANT_PREFIXES`]
    /// tenant prefixes in all; the count reported stops at `usize::MAX`.
    pub fn check_prefix_count(&self) -> (r: Result<(), ConfigError>)
        ensures
            r is Ok <==> prefix_total(self.tenants@) <= MAX_TENANT_PREFIXES,
            r matches Err(e) ==> e@ == ConfigErrorView::TooManyPrefixes(
                if prefix_total(self.tenants@) > usize::MAX { usize::MAX } else { prefix_total(self.tenants@) as usize }),
    {
        let mut total: u128 = 0;
        let mut i: usize = 0;
        while i < self.tenants.len()
            invariant
                i <= self.tenants@.len(),
                total == if prefix_total(self.tenants@.subrange(0, i as int)) > u128::MAX { u128::MAX as int } else { prefix_total(self.tenants@.subrange(0, i as int)) as int },
            decreases self.tenants@.len() - i,
        {
            proof {
                assert(self.tenants@.subrange(0, i + 1).drop_last() =~= self.tenants@.subrange(0, i as int));
            }
            let n = self.tenants[i].prefixes.len() as u128;
            total = match total.checked_add(n) {
                Some(t) => t,
                None => u128::MAX,
            };
            i = i + 1;
        }
        proof {
            assert(self.tenants@.subrange(0, self.tenants@.len() as int) =~= self.tenants@);
        }
        if total > MAX_TENANT_PREFIXES as u128 {
            let count: usize = if total > usize::MAX as u128 { usize::MAX } else { total as usize };
            return Err(ConfigError::TooManyPrefixes { count });
        }
        Ok(())
    }
}

/// The two sides of the first `/` in a CIDR text.
pub open spec fn cidr_parts(t: Seq<char>) -> Option<(Seq<char>, Seq<char>)> {
    if exists|i: int| 0 <= i < t.len() && t[i] == '/' {
        let i = choose|i: int| 0 <= i < t.len() && t[i] == '/' && forall|j: int| 0 <= j < i ==> t[j] != '/';
        Some((t.subrange(0, i), t.subrange(i + 1, t.len() as int)))
    } else {
        None
    }
}

/// Splits `"203.0.113.0/24"` at its first `/` into the address text and
/// the length text.
pub fn split_cidr(text: &str) -> (r: Result<(String, String), String>)
    ensures
        match r {
            Ok((a, l)) => cidr_parts(text@) == Some((a@, l@)),
            Err(e) => cidr_parts(text@) is None && e@ == "is not in address/length form"@,
        },
{
    let v = crate::text::chars_of(text);
    let mut i: usize = 0;
    while i < v.len()
        invariant
            v@ == text@,
            i <= v@.len(),
            forall|j: int| 0 <= j < i ==> v@[j] != '/',
        decreases v@.len() - i,
    {
        if v[i] == '/' {
            proof {
                let k = choose|k: int| 0 <= k < v@.len() && v@[k] == '/' && forall|j: int| 0 <= j < k ==> v@[j] != '/';
                if k < i {
                } else if k > i {
                    assert(v@[i as int] != '/');
                }
                assert(k == i);
            }
            let a = crate::render::text_of_range(&v, 0, i);
            let l = crate::render::text_of_range(&v, i + 1, v.len());
            return Ok((a, l));
        }
        i = i + 1;
    }
    Err(String::from_str("is not in address/length form"))
}

/// A number's text without the one leading `+` that an unsigned
/// parser allows.
pub open spec fn unsigned_body(s: Seq<char>) -> Seq<char> {
    if s.len() > 1 && s[0] == '+' { s.drop_first() } else { s }
}

/// Every character an ASCII digit.
pub open spec fn all_digits(s: Seq<char>) -> bool {
    forall|i: int| 0 <= i < s.len() ==> is_digit(#[trigger] s[i])
}

/// The `u8` a text spells, as `u8`'s parser reads it: an optional `+`,
/// then one or more ASCII digits, at most 255.
pub open spec fn u8_value(t: Seq<char>) -> Option<u8> {
    let body = unsigned_body(t);
    if body.len() == 0 || !all_digits(body) {
        None
    } else if digits_value(body) > 255 {
        None
    } else {
        Some(digits_value(body) as u8)
    }
}

/// The prefix length a text spells once trimmed.
pub open spec fn prefix_len_spec(t: Seq<char>) -> Option<u8> {
    u8_value(trimmed(t))
}

/// Reads `s` as a `u8`, as `str::parse::<u8>` does.
pub fn parse_u8(s: &Vec<char>) -> (r: Option<u8>)
    ensures
        r == u8_value(s@),
{
    let mut body: Vec<char> = Vec::new();
    if s.len() > 1 && s[0] == '+' {
        crate::render::push_range(&mut body, s, 1, s.len());
        proof {
            assert(body@ =~= s@.drop_first());
        }
    } else {
        crate::render::push_range(&mut body, s, 0, s.len());
        proof {
            assert(body@ =~= s@);
        }
    }
    let ghost b = unsigned_body(s@);
    assert(body@ == b);
    let mut ok = body.len() > 0;
    let mut i: usize = 0;
    while i < body.len()
        invariant
            i <= body@.len(),
            ok == (body@.len() > 0 && forall|j: int| 0 <= j < i ==> is_digit(#[trigger] body@[j])),
        decreases body@.len() - i,
    {
        if !(body[i] >= '0' && body[i] <= '9') {
            ok = false;
        }
        i = i + 1;
    }
    if ok {
        proof {
            assert(!exists|j: int| 0 <= j < body@.len() && !is_digit(#[trigger] body@[j]));
        }
        match digits_to_u64(&body, body.len()) {
            Some(v) => {
                proof {
                    assert(body@.subrange(0, body@.len() as int) =~= body@);
                }
                if v <= 255 {
                    return Some(v as u8);
                }
                None
            },
            None => {
                proof {
                    assert(body@.subrange(0, body@.len() as int) =~= body@);
                }
                None
            },
        }
    } else {
        proof {
            if body@.len() > 0 {
                assert(!forall|j: int| 0 <= j < body@.len() ==> is_digit(#[trigger] body@[j]));
                let j = choose|j: int| 0 <= j < body@.len() && !is_digit(#[trigger] body@[j]);
                assert(!is_digit(b[j]));
            }
        }
        None
    }
}

/// Reads a prefix length; the error quotes the text as written.
pub fn parse_prefix_len(text: &str) -> (r: Result<u8, String>)
    ensures
        match r {
            Ok(n) => prefix_len_spec(text@) == Some(n),
            Err(e) => prefix_len_spec(text@) is None && e@ == debug_text(text@) + " is not a prefix length"@,
        },
{
    let s = trim_chars(text);
    match parse_u8(&s) {
        Some(n) => Ok(n),
        None => {
            let q = debug_quoted(text);
            let mut out: Vec<char> = Vec::new();
            push_text(&mut out, q.as_str());
            push_text(&mut out, " is not a prefix length");
            proof {
                reveal_strlit(" is not a prefix length");
                assert(out@ =~= debug_text(text@) + " is not a prefix length"@);
            }
            Err(string_from_chars(out))
        },
    }
}

/// The address and length when the length fits the family, else why
/// not.
pub fn check_prefix_len(addr: IpAddress, len: u8) -> (r: Result<(IpAddress, u8), String>)
    ensures
        len <= family_bits(addr) ==> r == Ok::<(IpAddress, u8), String>((addr, len)),
        len > family_bits(addr) ==> (r matches Err(e) && e@ == "prefix length "@ + decimal(len as nat) + " exceeds "@
            + decimal(family_bits(addr)) + " for this family"@),
{
    let max: u8 = if addr.is_ipv4() { 32 } else { 128 };
    if len > max {
        let mut out: Vec<char> = Vec::new();
        push_text(&mut out, "prefix length ");
        push_decimal(&mut out, len as u128);
        push_text(&mut out, " exceeds ");
        push_decimal(&mut out, max as u128);
        push_text(&mut out, " for this family");
        proof {
            reveal_strlit("prefix length ");
            reveal_strlit(" exceeds ");
            reveal_strlit(" for this family");
            assert(out@ =~= "prefix length "@ + decimal(len as nat) + " exceeds "@ + decimal(family_bits(addr)) + " for this family"@);
        }
        return Err(string_from_chars(out));
    }
    Ok((addr, len))
}

/// The written form of a policy: every field carried over, durations
/// rendered in their shortest exact form, thresholds as plain numbers,
/// and the defaults' fields written out explicitly.
pub open spec fn entry_of(e: PolicyEntry, p: DetectionPolicy) -> bool {
    &&& e.id@ == p.id@
    &&& e.name@ == p.name@
    &&& (e.description is Some <==> p.description is Some)
    &&& (e.description matches Some(x) ==> x@ == p.description.unwrap()@)
    &&& e.enabled == p.enabled
    &&& e.tenant@ == p.tenant@
    &&& e.scope_type == p.scope_type
    &&& e.selector@ == p.selector@
    &&& e.address_family == p.address_family
    &&& e.direction == p.direction
    &&& e.window@ == render_spec(p.window)
    &&& e.thresholds@.len() == p.thresholds@.len()
    &&& (forall|j: int| 0 <= j < e.thresholds@.len() ==> #[trigger] e.thresholds@[j] == (p.thresholds@[j].0, Magnitude::Number(p.thresholds@[j].1)))
    &&& e.clear_percent == Some(p.clear_percent.value())
    &&& e.trigger_for@ == render_spec(p.trigger_for)
    &&& e.clear_for@ == render_spec(p.clear_for)
    &&& (e.cooldown matches Some(t) && t@ == render_spec(p.cooldown))
    &&& (e.hold_down matches Some(t) && t@ == render_spec(p.hold_down))
    &&& (e.event_update_interval matches Some(t) && t@ == render_spec(p.event_update_interval))
    &&& e.severity == Some(p.severity)
    &&& e.execution_mode == Some(p.execution_mode)
    &&& e.priority == p.priority
    &&& labels_view(e.labels@) == labels_view(p.labels@)
    &&& e.version == p.version
}

fn write_entry(p: &DetectionPolicy) -> (r: PolicyEntry)
    ensures
        entry_of(r, *p),
{
    let ts = p.thresholds.iter();
    let mut thresholds: Vec<(MetricKind, Magnitude)> = Vec::new();
    let mut i: usize = 0;
    while i < ts.len()
        invariant
            i <= ts@.len(),
            ts@ == p.thresholds@,
            thresholds@.len() == i,
            forall|j: int| 0 <= j < i ==> #[trigger] thresholds@[j] == (ts@[j].0, Magnitude::Number(ts@[j].1)),
        decreases ts@.len() - i,
    {
        thresholds.push((ts[i].0, Magnitude::Number(ts[i].1)));
        i = i + 1;
    }
    PolicyEntry {
        id: p.id.clone(),
        name: p.name.clone(),
        description: copy_text(&p.description),
        enabled: p.enabled,
        tenant: p.tenant.clone(),
        scope_type: p.scope_type,
        selector: p.selector.duplicate(),
        address_family: p.address_family,
        direction: p.direction,
        window: render_duration(p.window),
        thresholds,
        clear_percent: Some(p.clear_percent.get()),
        trigger_for: render_duration(p.trigger_for),
        clear_for: render_duration(p.clear_for),
        cooldown: Some(render_duration(p.cooldown)),
        hold_down: Some(render_duration(p.hold_down)),
        event_update_interval: Some(render_duration(p.event_update_interval)),
        severity: Some(p.severity),
        execution_mode: Some(p.execution_mode),
        priority: p.priority,
        labels: copy_labels(&p.labels),
        version: p.version,
    }
}

/// Renders policies back out as a document, for a diagnostic endpoint
/// answering "what is actually loaded right now".
pub fn to_document(policies: &Vec<DetectionPolicy>) -> (r: PolicyDocument)
    ensures
        r.schema_version == POLICY_SCHEMA_VERSION,
        r.defaults.clear_percent == DEFAULT_CLEAR_PERCENT,
        r.defaults.cooldown is None && r.defaults.hold_down is None && r.defaults.event_update_interval is None,
        r.defaults.severity is None && r.defaults.execution_mode is None,
        r.tenants@.len() == 0,
        r.policies@.len() == policies@.len(),
        forall|i: int| 0 <= i < policies@.len() ==> entry_of(#[trigger] r.policies@[i], policies@[i]),
{
    let mut entries: Vec<PolicyEntry> = Vec::new();
    let mut i: usize = 0;
    while i < policies.len()
        invariant
            i <= policies@.len(),
            entries@.len() == i,
            forall|j: int| 0 <= j < i ==> entry_of(#[trigger] entries@[j], policies@[j]),
        decreases policies@.len() - i,
    {
        entries.push(write_entry(&policies[i]));
        i = i + 1;
    }
    PolicyDocument {
        schema_version: POLICY_SCHEMA_VERSION,
        defaults: PolicyDefaults::default(),
        tenants: Vec::new(),
        policies: entries,
    }
}

} // verus!
