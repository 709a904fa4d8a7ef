//! Every known scope, bounded, with the detection timers applied to
//! each.
//!
//! The table is modelled as a map from scope key to the scope's state.
//! Reaching the size cap rejects *new* scopes and never evicts a known
//! one: an eviction would silently discard an open detection and its end
//! event.

use vstd::prelude::*;

verus! {

use crate::evaluate::{Evaluation, MatchedReason};
use crate::input::{key_order, lemma_key_order_flip, lemma_key_order_same, DetectionSnapshot, ScopeKey, ScopeKeyView};
use crate::policy::DetectionPolicy;
use crate::precedence::{ids_ascending, lemma_winner_of, winner_of, PolicySet};
use crate::state::{
    consistent, elapsed, fresh_entry, ignored_outcome, is_open_spec, is_path, law_started_marks_an_opening_move,
    law_step_follows_the_machine, law_step_keeps_start_time, law_step_stays_with_its_scope, opens,
    legal_edge, moved, step_entry, step_spec,
    DetectionState, OutcomeView, ScopeState, ScopeStateView, Signal, StateTransition, StepIgnored,
    StepOutcome, TransitionReason, TransitionView,
};
use crate::text::text_eq;
use crate::text::{flipped, KeyOrder};

/// How the state table is bounded.
#[derive(Debug, Clone, Copy, PartialEq, Eq, Structural)]
pub struct StateTableConfig {
    /// Hard cap on known scopes. Reaching it rejects new scopes; it
    /// never evicts a known one.
    pub max_entries: usize,
    /// An `Idle` scope untouched for this long is forgotten.
    pub idle_ttl: u128,
    /// An open or cooling scope untouched for this long is force-closed
    /// as stale.
    pub stale_after: u128,
}

/// The default bounds: 100 000 scopes, idle after five minutes, stale
/// after three.
pub open spec fn default_table_config() -> StateTableConfig {
    StateTableConfig { max_entries: 100_000, idle_ttl: 300_000_000_000, stale_after: 180_000_000_000 }
}

impl Default for StateTableConfig {
    fn default() -> (r: Self)
        ensures
            r == default_table_config(),
    {
        StateTableConfig { max_entries: 100_000, idle_ttl: 300_000_000_000, stale_after: 180_000_000_000 }
    }
}

/// Counters the engine turns into metrics.
#[derive(Debug, Clone, Copy, PartialEq, Eq, Structural)]
pub struct StateTableStats {
    pub rejected_table_full: u64,
    pub ignored_out_of_order: u64,
    pub ignored_duplicate: u64,
    pub ignored_window_mismatch: u64,
    pub expired_idle: u64,
    pub expired_stale: u64,
    pub policy_changes: u64,
}

/// All counters at zero.
pub open spec fn no_stats() -> StateTableStats {
    StateTableStats {
        rejected_table_full: 0,
        ignored_out_of_order: 0,
        ignored_duplicate: 0,
        ignored_window_mismatch: 0,
        expired_idle: 0,
        expired_stale: 0,
        policy_changes: 0,
    }
}

impl Default for StateTableStats {
    fn default() -> (r: Self)
        ensures
            r == no_stats(),
    {
        StateTableStats {
            rejected_table_full: 0,
            ignored_out_of_order: 0,
            ignored_duplicate: 0,
            ignored_window_mismatch: 0,
            expired_idle: 0,
            expired_stale: 0,
            policy_changes: 0,
        }
    }
}

/// A counter advanced by one, stopping at its maximum.
pub open spec fn bumped(a: u64) -> u64 {
    if a == u64::MAX { a } else { (a + 1) as u64 }
}

/// A counter advanced by `n`, stopping at its maximum.
pub open spec fn bumped_by(a: u64, n: nat) -> u64 {
    if a + n >= u64::MAX { u64::MAX } else { (a + n) as u64 }
}

/// What a sweep or a withdrawal did to one scope.
#[derive(Debug, Clone, PartialEq, Eq)]
pub struct Expiry {
    pub key: ScopeKey,
    /// Present when the scope was closed with a transition.
    pub transition: Option<StateTransition>,
    pub signal: Option<Signal>,
}

pub struct ExpiryView {
    pub key: ScopeKeyView,
    pub transition: Option<TransitionView>,
    pub signal: Option<Signal>,
}

impl View for Expiry {
    type V = ExpiryView;

    open spec fn view(&self) -> ExpiryView {
        ExpiryView {
            key: self.key@,
            transition: match self.transition {
                Some(t) => Some(t@),
                None => None,
            },
            signal: self.signal,
        }
    }
}

/// The keys of a sequence of entries.
pub open spec fn keys_of(s: Seq<ScopeStateView>) -> Seq<ScopeKeyView> {
    s.map_values(|e: ScopeStateView| e.key)
}

/// The map from key to entry that a sequence of entries with distinct
/// keys stands for.
pub open spec fn table_map(s: Seq<ScopeStateView>) -> Map<ScopeKeyView, ScopeStateView> {
    Map::new(|k: ScopeKeyView| keys_of(s).contains(k), |k: ScopeKeyView| s[keys_of(s).index_of(k)])
}

/// `a` orders strictly before `b`.
#[verifier::opaque]
pub open spec fn key_before(a: ScopeKeyView, b: ScopeKeyView) -> bool {
    key_order(a, b) == KeyOrder::Before
}

/// Each key is strictly before the next one.
pub open spec fn keys_ascending(s: Seq<ScopeKeyView>) -> bool {
    forall|i: int| 0 <= i < s.len() - 1 ==> key_before(#[trigger] s[i], s[i + 1])
}

pub(crate) proof fn lemma_before_total(a: ScopeKeyView, b: ScopeKeyView)
    ensures
        key_before(a, b) ==> a != b,
        a != b && !key_before(a, b) ==> key_before(b, a),
{
    reveal(key_before);
    lemma_key_order_flip(a, b);
    lemma_key_order_same(a, b);
}

proof fn lemma_map_at(s: Seq<ScopeStateView>, i: int)
    requires
        keys_of(s).no_duplicates(),
        0 <= i < s.len(),
    ensures
        table_map(s).dom().contains(s[i].key),
        table_map(s)[s[i].key] == s[i],
{
    let ks = keys_of(s);
    assert(ks[i] == s[i].key);
    assert(ks.contains(s[i].key));
    let j = ks.index_of(s[i].key);
    assert(ks[j] == s[i].key);
}

proof fn lemma_map_keys(s: Seq<ScopeStateView>)
    requires
        keys_of(s).no_duplicates(),
    ensures
        forall|k: ScopeKeyView| #[trigger] table_map(s).dom().contains(k) ==> table_map(s)[k].key == k,
{
    assert forall|k: ScopeKeyView| #[trigger] table_map(s).dom().contains(k) implies table_map(s)[k].key == k by {
        let j = keys_of(s).index_of(k);
        assert(keys_of(s)[j] == k);
        lemma_map_at(s, j);
    }
}

proof fn lemma_map_push(s: Seq<ScopeStateView>, e: ScopeStateView)
    requires
        keys_of(s).no_duplicates(),
        !table_map(s).dom().contains(e.key),
    ensures
        keys_of(s.push(e)).no_duplicates(),
        table_map(s.push(e)) == table_map(s).insert(e.key, e),
{
    let s2 = s.push(e);
    assert(keys_of(s2) =~= keys_of(s).push(e.key));
    assert forall|k: ScopeKeyView| #[trigger] table_map(s2).dom().contains(k) <==> table_map(s).insert(e.key, e).dom().contains(k) by {
        if keys_of(s).contains(k) {
            let j = keys_of(s).index_of(k);
            assert(keys_of(s2)[j] == k);
        }
        if keys_of(s2).contains(k) && k != e.key {
            let j = keys_of(s2).index_of(k);
            assert(j < s.len());
            assert(keys_of(s)[j] == k);
        }
        assert(keys_of(s2)[s.len() as int] == e.key);
    }
    assert forall|k: ScopeKeyView| #[trigger] table_map(s2).dom().contains(k) implies table_map(s2)[k] == table_map(s).insert(e.key, e)[k] by {
        let j = keys_of(s2).index_of(k);
        if k == e.key {
            lemma_map_at(s2, s.len() as int);
        } else {
            assert(j < s.len());
            lemma_map_at(s2, j);
            lemma_map_at(s, j);
        }
    }
    assert(table_map(s2) =~= table_map(s).insert(e.key, e));
}

proof fn lemma_map_update(s: Seq<ScopeStateView>, i: int, e: ScopeStateView)
    requires
        keys_of(s).no_duplicates(),
        0 <= i < s.len(),
        s[i].key == e.key,
    ensures
        keys_of(s.update(i, e)).no_duplicates(),
        table_map(s.update(i, e)) == table_map(s).insert(e.key, e),
{
    let s2 = s.update(i, e);
    assert(keys_of(s2) =~= keys_of(s));
    lemma_map_at(s, i);
    assert forall|k: ScopeKeyView| #[trigger] table_map(s2).dom().contains(k) implies table_map(s2)[k] == table_map(s).insert(e.key, e)[k] by {
        let j = keys_of(s2).index_of(k);
        assert(keys_of(s2)[j] == k);
        lemma_map_at(s2, j);
        assert(s2[j].key == k);
        if j != i {
            assert(keys_of(s)[j] == k);
            assert(keys_of(s)[i] == e.key);
            lemma_map_at(s, j);
        } else {
            assert(s2[j] == e);
        }
    }
    assert(table_map(s2) =~= table_map(s).insert(e.key, e));
}

proof fn lemma_map_remove(s: Seq<ScopeStateView>, i: int)
    requires
        keys_of(s).no_duplicates(),
        0 <= i < s.len(),
    ensures
        keys_of(s.remove(i)).no_duplicates(),
        table_map(s.remove(i)) == table_map(s).remove(s[i].key),
{
    let s2 = s.remove(i);
    let k0 = s[i].key;
    let ks = keys_of(s);
    let ks2 = keys_of(s2);
    assert(ks2 =~= ks.remove(i));
    assert(ks[i] == k0);
    assert forall|k: ScopeKeyView| ks2.contains(k) implies ks.contains(k) && k != k0 by {
        let j = choose|j: int| 0 <= j < ks2.len() && #[trigger] ks2[j] == k;
        let j0 = if j < i { j } else { j + 1 };
        assert(ks[j0] == k);
        assert(j0 != i);
    }
    assert forall|k: ScopeKeyView| ks.contains(k) && k != k0 implies ks2.contains(k) by {
        let j = choose|j: int| 0 <= j < ks.len() && #[trigger] ks[j] == k;
        assert(j != i);
        let j2 = if j < i { j } else { j - 1 };
        assert(ks2[j2] == k);
    }
    assert(table_map(s2).dom() =~= table_map(s).remove(k0).dom());
    assert forall|k: ScopeKeyView| #[trigger] table_map(s2).dom().contains(k) implies table_map(s2)[k] == table_map(s).remove(k0)[k] by {
        let j = ks2.index_of(k);
        assert(ks2[j] == k);
        lemma_map_at(s2, j);
        let j0 = if j < i { j } else { j + 1 };
        assert(s2[j] == s[j0]);
        lemma_map_at(s, j0);
    }
    assert(table_map(s2) =~= table_map(s).remove(k0));
}

proof fn lemma_map_len(s: Seq<ScopeStateView>)
    requires
        keys_of(s).no_duplicates(),
    ensures
        table_map(s).dom().finite(),
        table_map(s).dom().len() == s.len(),
{
    assert(table_map(s).dom() =~= keys_of(s).to_set());
    keys_of(s).unique_seq_to_set();
}

/// The views of a sequence of keys.
pub open spec fn key_views(s: Seq<ScopeKey>) -> Seq<ScopeKeyView> {
    s.map_values(|k: ScopeKey| k@)
}

pub(crate) proof fn lemma_sorted_insert(ov: Seq<ScopeKeyView>, p: int, xv: ScopeKeyView)
    requires
        ov.no_duplicates(),
        keys_ascending(ov),
        !ov.contains(xv),
        0 <= p <= ov.len(),
        forall|j: int| 0 <= j < p ==> !key_before(xv, #[trigger] ov[j]),
        p < ov.len() ==> key_before(xv, ov[p]),
    ensures
        ov.insert(p, xv).no_duplicates(),
        keys_ascending(ov.insert(p, xv)),
        forall|k: ScopeKeyView| #[trigger] ov.insert(p, xv).contains(k) <==> (ov.contains(k) || k == xv),
{
    let nv = ov.insert(p, xv);
    assert forall|k: ScopeKeyView| #[trigger] nv.contains(k) <==> (ov.contains(k) || k == xv) by {
        if nv.contains(k) {
            let j = choose|j: int| 0 <= j < nv.len() && #[trigger] nv[j] == k;
            if j < p {
                assert(ov[j] == k);
            } else if j > p {
                assert(ov[j - 1] == k);
            }
        }
        if ov.contains(k) {
            let j = choose|j: int| 0 <= j < ov.len() && #[trigger] ov[j] == k;
            if j < p {
                assert(nv[j] == k);
            } else {
                assert(nv[j + 1] == k);
            }
        }
        if k == xv {
            assert(nv[p] == k);
        }
    }
    assert forall|a: int, b: int| 0 <= a < nv.len() && 0 <= b < nv.len() && a != b implies nv[a] != nv[b] by {
        if a != p && b != p {
            let a0 = if a < p { a } else { a - 1 };
            let b0 = if b < p { b } else { b - 1 };
            assert(ov[a0] == nv[a]);
            assert(ov[b0] == nv[b]);
        } else if a == p {
            let b0 = if b < p { b } else { b - 1 };
            assert(ov[b0] == nv[b]);
        } else {
            let a0 = if a < p { a } else { a - 1 };
            assert(ov[a0] == nv[a]);
        }
    }
    assert forall|j: int| 0 <= j < nv.len() - 1 implies key_before(#[trigger] nv[j], nv[j + 1]) by {
        if j + 1 < p {
            assert(nv[j] == ov[j] && nv[j + 1] == ov[j + 1]);
        } else if j + 1 == p {
            assert(nv[j] == ov[j]);
            assert(nv[j + 1] == xv);
            assert(ov.contains(ov[j]));
            lemma_before_total(xv, ov[j]);
        } else if j == p {
            assert(nv[j] == xv);
            assert(nv[j + 1] == ov[j]);
        } else {
            assert(nv[j] == ov[j - 1] && nv[j + 1] == ov[j]);
            assert(key_before(ov[j - 1], ov[j]));
        }
    }
}

/// Sorts distinct keys into ascending order.
fn sort_keys(keys: Vec<ScopeKey>) -> (r: Vec<ScopeKey>)
    requires
        key_views(keys@).no_duplicates(),
    ensures
        r@.len() == keys@.len(),
        forall|k: ScopeKeyView| #![trigger key_views(r@).contains(k)] #![trigger key_views(keys@).contains(k)] key_views(r@).contains(k) <==> key_views(keys@).contains(k),
        key_views(r@).no_duplicates(),
        keys_ascending(key_views(r@)),
{
    let ghost input = key_views(keys@);
    let mut out: Vec<ScopeKey> = Vec::new();
    let mut i: usize = 0;
    while i < keys.len()
        invariant
            i <= keys.len(),
            input == key_views(keys@),
            input.no_duplicates(),
            out@.len() == i,
            forall|k: ScopeKeyView| #![trigger key_views(out@).contains(k)] #![trigger input.subrange(0, i as int).contains(k)] key_views(out@).contains(k) <==> input.subrange(0, i as int).contains(k),
            key_views(out@).no_duplicates(),
            keys_ascending(key_views(out@)),
        decreases keys.len() - i,
    {
        let x = keys[i].duplicate();
        let ghost ov = key_views(out@);
        assert(!ov.contains(x@)) by {
            if ov.contains(x@) {
                let j = choose|j: int| 0 <= j < i && #[trigger] input.subrange(0, i as int)[j] == x@;
                assert(input[j] == input[i as int]);
            }
        }
        let mut p: usize = 0;
        while p < out.len()
            invariant
                p <= out@.len(),
                ov == key_views(out@),
                forall|j: int| 0 <= j < p ==> !key_before(x@, #[trigger] ov[j]),
            ensures
                p <= out@.len(),
                forall|j: int| 0 <= j < p ==> !key_before(x@, #[trigger] ov[j]),
                p < out@.len() ==> key_before(x@, ov[p as int]),
            decreases out@.len() - p,
        {
            let o = x.compare(&out[p]);
            proof {
                reveal(key_before);
            }
            if o == KeyOrder::Before {
                break;
            }
            p = p + 1;
        }
        let ghost xv = x@;
        out.insert(p, x);
        proof {
            let nv = key_views(out@);
            assert(nv =~= ov.insert(p as int, xv));
            lemma_sorted_insert(ov, p as int, xv);
            assert(input[i as int] == xv);
            assert(input.subrange(0, i + 1) =~= input.subrange(0, i as int).push(xv));
            assert forall|k: ScopeKeyView| nv.contains(k) <==> input.subrange(0, i + 1).contains(k) by {
                if input.subrange(0, i + 1).contains(k) && k != xv {
                    let m = choose|m: int| 0 <= m < i + 1 && #[trigger] input.subrange(0, i + 1)[m] == k;
                    assert(input.subrange(0, i as int)[m] == k);
                }
                if input.subrange(0, i as int).contains(k) {
                    let m = choose|m: int| 0 <= m < i && #[trigger] input.subrange(0, i as int)[m] == k;
                    assert(input.subrange(0, i + 1)[m] == k);
                }
                assert(input.subrange(0, i + 1)[i as int] == xv);
            }
        }
        i = i + 1;
    }
    assert(input.subrange(0, keys@.len() as int) =~= input);
    out
}

/// Number of entries in `state`.
pub open spec fn count_state(s: Seq<ScopeStateView>, state: DetectionState) -> nat
    decreases s.len(),
{
    if s.len() == 0 {
        0
    } else {
        count_state(s.drop_last(), state) + if s.last().state == state { 1nat } else { 0nat }
    }
}

proof fn lemma_count_state(s: Seq<ScopeStateView>, state: DetectionState)
    requires
        keys_of(s).no_duplicates(),
    ensures
        table_map(s).dom().filter(|k: ScopeKeyView| table_map(s)[k].state == state).finite(),
        table_map(s).dom().filter(|k: ScopeKeyView| table_map(s)[k].state == state).len() == count_state(s, state),
    decreases s.len(),
{
    let f = table_map(s).dom().filter(|k: ScopeKeyView| table_map(s)[k].state == state);
    if s.len() == 0 {
        assert(f =~= Set::empty());
    } else {
        let s1 = s.drop_last();
        let e = s.last();
        assert(s =~= s1.push(e));
        assert(keys_of(s1) =~= keys_of(s).drop_last());
        assert(keys_of(s1).no_duplicates());
        if table_map(s1).dom().contains(e.key) {
            let j = keys_of(s1).index_of(e.key);
            assert(keys_of(s1)[j] == e.key);
            assert(keys_of(s)[j] == keys_of(s)[s.len() - 1]);
        }
        lemma_map_push(s1, e);
        lemma_count_state(s1, state);
        let f1 = table_map(s1).dom().filter(|k: ScopeKeyView| table_map(s1)[k].state == state);
        lemma_map_len(s1);
        if e.state == state {
            assert(f =~= f1.insert(e.key));
        } else {
            assert(f =~= f1);
        }
    }
}

/// The record of removing entry `e` with `reason`: a transition to
/// `Idle` unless it already was idle, and `Ended` if a detection was
/// open.
pub open spec fn closed_expiry(e: ScopeStateView, reason: TransitionReason, now: u128, wall: i128) -> ExpiryView {
    ExpiryView {
        key: e.key,
        transition: if e.state != DetectionState::Idle {
            Some(moved(e, DetectionState::Idle, reason, now, wall, Seq::empty()).1)
        } else {
            None
        },
        signal: if is_open_spec(e.state) { Some(Signal::Ended) } else { None },
    }
}

/// Whether the policy `e` was last judged under still wins its scope
/// among `ps`, at the same version.
pub open spec fn still_selected(ps: Seq<DetectionPolicy>, e: ScopeStateView) -> bool {
    match winner_of(ps, e.key) {
        Some(p) => p.id@ == e.policy_id && p.version == e.policy_version,
        None => false,
    }
}

/// Why a scope whose selection lapsed under `ps` is closed: nothing
/// wins it any more, or something else does.
pub open spec fn lapse_reason(ps: Seq<DetectionPolicy>, k: ScopeKeyView) -> TransitionReason {
    if winner_of(ps, k) is None { TransitionReason::PolicyWithdrawn } else { TransitionReason::PolicyChanged }
}

/// The keys of a sequence of expiries.
pub open spec fn expiry_keys(s: Seq<Expiry>) -> Seq<ScopeKeyView> {
    s.map_values(|x: Expiry| x.key@)
}

/// How long a scope has been quiet: since its newest snapshot, or since
/// it was admitted when it has none.
pub open spec fn quiet_for(e: ScopeStateView, now: u128) -> u128 {
    elapsed(now, match e.last_snapshot_at {
        Some(t) => t,
        None => e.entered_at,
    })
}

/// Whether a sweep at `now` removes `e`: an idle scope after `idle_ttl`
/// of quiet, any other after `stale_after`.
pub open spec fn due_for_sweep(e: ScopeStateView, cfg: StateTableConfig, now: u128) -> bool {
    quiet_for(e, now) >= if e.state == DetectionState::Idle { cfg.idle_ttl } else { cfg.stale_after }
}

/// How many expiries closed nothing (the scope was idle).
pub open spec fn count_reclaimed(r: Seq<ExpiryView>) -> nat
    decreases r.len(),
{
    if r.len() == 0 {
        0
    } else {
        count_reclaimed(r.drop_last()) + if r.last().transition is None { 1nat } else { 0nat }
    }
}

/// The values of a sequence of expiries.
pub open spec fn expiry_views(s: Seq<Expiry>) -> Seq<ExpiryView> {
    s.map_values(|x: Expiry| x@)
}

/// Every entry has its start time exactly while a detection is open.
pub open spec fn all_consistent(s: Seq<ScopeStateView>) -> bool {
    forall|i: int| 0 <= i < s.len() ==> consistent(#[trigger] s[i])
}

proof fn lemma_consistent_update(s: Seq<ScopeStateView>, i: int, e: ScopeStateView)
    requires
        all_consistent(s),
        consistent(e),
        0 <= i < s.len(),
    ensures
        all_consistent(s.update(i, e)),
{
    assert forall|j: int| 0 <= j < s.len() implies consistent(#[trigger] s.update(i, e)[j]) by {
        if j != i {
            assert(consistent(s[j]));
        }
    }
}

/// The values of a sequence of entries.
pub open spec fn entry_views(s: Seq<ScopeState>) -> Seq<ScopeStateView> {
    s.map_values(|e: ScopeState| e@)
}

/// Every known scope, bounded, with the timers applied to each.
#[derive(Debug)]
pub struct StateTable {
    config: StateTableConfig,
    entries: Vec<ScopeState>,
    stats: StateTableStats,
}

/// A [`StateTable`] as values: its bounds, its entries by key, and its
/// counters.
pub struct TableView {
    pub config: StateTableConfig,
    pub entries: Map<ScopeKeyView, ScopeStateView>,
    pub stats: StateTableStats,
}

impl View for StateTable {
    type V = TableView;

    closed spec fn view(&self) -> TableView {
        TableView { config: self.config, entries: table_map(entry_views(self.entries@)), stats: self.stats }
    }
}

/// The state of `k` in `t`, or `None` when it is not known.
pub open spec fn state_in(t: TableView, k: ScopeKeyView) -> Option<DetectionState> {
    if t.entries.dom().contains(k) { Some(t.entries[k].state) } else { None }
}

/// The table and outcome after feeding one evaluated snapshot.
///
/// In order: a policy whose mode does not evaluate changes nothing; a
/// window other than the policy's is counted and refused; an untracked
/// scope is refused and counted when the table is full, else admitted
/// fresh; a snapshot older than, or at the same instant as, the newest
/// applied to the scope is counted and refused; otherwise the entry
/// takes the step of [`step_spec`], and a change of policy is counted.
pub open spec fn table_step(t: TableView, p: DetectionPolicy, snap: DetectionSnapshot, e: Evaluation) -> (TableView, OutcomeView) {
    table_step_with(t, p, snap, e.matched@, e.all_below_clear)
}

/// [`table_step`] with the evaluation given as the thresholds crossed
/// and whether every evaluated threshold is at or below its clear level.
pub open spec fn table_step_with(t: TableView, p: DetectionPolicy, snap: DetectionSnapshot, matched: Seq<MatchedReason>, below: bool) -> (TableView, OutcomeView) {
    let k = snap.key@;
    let now = snap.observed_at;
    let known = t.entries.dom().contains(k);
    let last = if known { t.entries[k].last_snapshot_at } else { None };
    if !p.execution_mode.evaluates_spec() {
        (t, ignored_outcome(StepIgnored::ModeDisabled, state_in(t, k)))
    } else if snap.window != p.window {
        (
            TableView { stats: StateTableStats { ignored_window_mismatch: bumped(t.stats.ignored_window_mismatch), ..t.stats }, ..t },
            ignored_outcome(StepIgnored::WindowMismatch, state_in(t, k)),
        )
    } else if !known && t.entries.len() >= t.config.max_entries {
        (
            TableView { stats: StateTableStats { rejected_table_full: bumped(t.stats.rejected_table_full), ..t.stats }, ..t },
            ignored_outcome(StepIgnored::TableFull, None),
        )
    } else if last is Some && now < last->0 {
        (
            TableView { stats: StateTableStats { ignored_out_of_order: bumped(t.stats.ignored_out_of_order), ..t.stats }, ..t },
            ignored_outcome(StepIgnored::OutOfOrder, state_in(t, k)),
        )
    } else if last is Some && now == last->0 {
        (
            TableView { stats: StateTableStats { ignored_duplicate: bumped(t.stats.ignored_duplicate), ..t.stats }, ..t },
            ignored_outcome(StepIgnored::Duplicate, state_in(t, k)),
        )
    } else {
        let entry = if known { t.entries[k] } else { fresh_entry(k, p, now) };
        let a = step_spec(entry, p, now, snap.observed_wall, matched.len() > 0, below, matched);
        let changed = entry.policy_id != p.id@ || entry.policy_version != p.version;
        let stats = if changed { StateTableStats { policy_changes: bumped(t.stats.policy_changes), ..t.stats } } else { t.stats };
        (
            TableView { entries: t.entries.insert(k, a.s), stats, ..t },
            OutcomeView { transitions: a.ts, signals: a.sigs, state: Some(a.s.state), ignored: None, suppressed: a.sup },
        )
    }
}

impl StateTable {
    #[verifier::type_invariant]
    spec fn wf(self) -> bool {
        &&& keys_of(entry_views(self.entries@)).no_duplicates()
        &&& all_consistent(entry_views(self.entries@))
    }

    /// An empty table with the given bounds.
    pub fn new(config: StateTableConfig) -> (r: StateTable)
        ensures
            r@ == (TableView { config, entries: Map::empty(), stats: no_stats() }),
    {
        let r = StateTable { config, entries: Vec::new(), stats: StateTableStats::default() };
        assert(table_map(entry_views(r.entries@)) =~= Map::empty());
        r
    }

    /// How many scopes are known.
    pub fn len(&self) -> (r: usize)
        ensures
            self@.entries.dom().finite(),
            r == self@.entries.len(),
    {
        proof {
            use_type_invariant(self);
            lemma_map_len(entry_views(self.entries@));
        }
        self.entries.len()
    }

    /// Whether no scope is known.
    pub fn is_empty(&self) -> (r: bool)
        ensures
            r == (self@.entries.len() == 0),
    {
        self.len() == 0
    }

    pub fn config(&self) -> (r: StateTableConfig)
        ensures
            r == self@.config,
    {
        self.config
    }

    pub fn stats(&self) -> (r: StateTableStats)
        ensures
            r == self@.stats,
    {
        self.stats
    }

    /// The position of the entry for `key`, if it is known.
    fn find(&self, key: &ScopeKey) -> (r: Option<usize>)
        ensures
            match r {
                Some(i) => i < self.entries@.len() && self.entries@[i as int]@.key == key@ && self@.entries.dom().contains(key@)
                    && self@.entries[key@] == self.entries@[i as int]@,
                None => !self@.entries.dom().contains(key@),
            },
    {
        proof {
            use_type_invariant(self);
        }
        let ghost s = entry_views(self.entries@);
        let mut i: usize = 0;
        while i < self.entries.len()
            invariant
                i <= self.entries@.len(),
                s == entry_views(self.entries@),
                keys_of(s).no_duplicates(),
                forall|j: int| 0 <= j < i ==> #[trigger] s[j].key != key@,
            decreases self.entries@.len() - i,
        {
            if self.entries[i].key.same_as(key) {
                proof {
                    lemma_map_at(s, i as int);
                }
                return Some(i);
            }
            i = i + 1;
        }
        proof {
            if keys_of(s).contains(key@) {
                let j = choose|j: int| 0 <= j < keys_of(s).len() && #[trigger] keys_of(s)[j] == key@;
                assert(s[j].key == key@);
            }
        }
        None
    }

    /// The entry for `key`, if it is known.
    pub fn get(&self, key: &ScopeKey) -> (r: Option<&ScopeState>)
        ensures
            match r {
                Some(e) => self@.entries.dom().contains(key@) && e@ == self@.entries[key@] && consistent(e@),
                None => !self@.entries.dom().contains(key@),
            },
    {
        proof {
            use_type_invariant(self);
        }
        match self.find(key) {
            Some(i) => Some(&self.entries[i]),
            None => None,
        }
    }

    /// Feeds one evaluated snapshot to one scope.
    ///
    /// `policy` must be the winner selected for `snapshot.key`, and
    /// `evaluation` that policy applied to that snapshot.
    #[verifier::rlimit(80)]
    pub fn step(&mut self, policy: &DetectionPolicy, snapshot: &DetectionSnapshot, evaluation: &Evaluation) -> (r: StepOutcome)
        ensures
            final(self)@ == table_step(old(self)@, *policy, *snapshot, *evaluation).0,
            r@ == table_step(old(self)@, *policy, *snapshot, *evaluation).1,
            r@.transitions.len() <= 2,
            forall|i: int| 0 <= i < r@.transitions.len() ==> (#[trigger] r@.transitions[i]).key == snapshot.key@,
            r@.ignored is None ==> is_path(r@.transitions, state_before(old(self)@, snapshot.key@), final(self)@.entries[snapshot.key@].state),
            r@.signals.contains(Signal::Started) <==> exists|i: int| 0 <= i < r@.transitions.len() && opens(#[trigger] r@.transitions[i]),
    {
        proof {
            use_type_invariant(&*self);
            law_tables_are_keyed(*self);
            law_step_transitions_name_the_snapshot(self@, *policy, *snapshot, evaluation.matched@, evaluation.all_below_clear);
            law_step_transitions_chain(self@, *policy, *snapshot, evaluation.matched@, evaluation.all_below_clear);
        }
        let ghost t0 = self@;
        let found = self.find(&snapshot.key);
        if !policy.execution_mode.evaluates() {
            let st = match found {
                Some(i) => Some(self.entries[i].state),
                None => None,
            };
            return StepOutcome::skipped(StepIgnored::ModeDisabled, st);
        }
        if snapshot.window != policy.window {
            self.stats.ignored_window_mismatch = self.stats.ignored_window_mismatch.saturating_add(1);
            let st = match found {
                Some(i) => Some(self.entries[i].state),
                None => None,
            };
            return StepOutcome::skipped(StepIgnored::WindowMismatch, st);
        }
        let now = snapshot.observed_at;
        let wall = snapshot.observed_wall;
        let ghost s0 = entry_views(self.entries@);
        let idx: usize = match found {
            Some(i) => i,
            None => {
                if self.len() >= self.config.max_entries {
                    self.stats.rejected_table_full = self.stats.rejected_table_full.saturating_add(1);
                    return StepOutcome::skipped(StepIgnored::TableFull, None);
                }
                let entry = ScopeState::new(snapshot.key.duplicate(), policy, now);
                proof {
                    lemma_map_push(s0, entry@);
                    assert(entry_views(self.entries@.push(entry)) =~= s0.push(entry@));
                    lemma_map_at(s0.push(entry@), s0.len() as int);
                    assert(all_consistent(s0.push(entry@)));
                }
                let mut entries: Vec<ScopeState> = Vec::new();
                std::mem::swap(&mut entries, &mut self.entries);
                entries.push(entry);
                self.entries = entries;
                self.entries.len() - 1
            },
        };
        let ghost s1 = entry_views(self.entries@);
        proof {
            assert(s1[idx as int] == self.entries@[idx as int]@);
            lemma_map_at(s1, idx as int);
        }
        match self.entries[idx].last_snapshot_at {
            Some(last) => {
                if now < last {
                    self.stats.ignored_out_of_order = self.stats.ignored_out_of_order.saturating_add(1);
                    return StepOutcome::skipped(StepIgnored::OutOfOrder, Some(self.entries[idx].state));
                }
                if now == last {
                    self.stats.ignored_duplicate = self.stats.ignored_duplicate.saturating_add(1);
                    return StepOutcome::skipped(StepIgnored::Duplicate, Some(self.entries[idx].state));
                }
            },
            None => {},
        }
        if !text_eq(self.entries[idx].policy_id.as_str(), policy.id.as_str()) || self.entries[idx].policy_version != policy.version {
            self.stats.policy_changes = self.stats.policy_changes.saturating_add(1);
        }
        let mut entry = self.entries[idx].duplicate();
        let ghost before = entry@;
        proof {
            assert(before == (if t0.entries.dom().contains(snapshot.key@) { t0.entries[snapshot.key@] } else { fresh_entry(snapshot.key@, *policy, now) }));
        }
        let outcome = step_entry(&mut entry, policy, now, wall, evaluation);
        proof {
            assert(consistent(s1[idx as int]));
            law_step_keeps_start_time(before, *policy, now, wall, evaluation.matched@.len() > 0, evaluation.all_below_clear, evaluation.matched@);
            lemma_consistent_update(s1, idx as int, entry@);
            lemma_map_update(s1, idx as int, entry@);
            assert(entry_views(self.entries@.update(idx as int, entry)) =~= s1.update(idx as int, entry@));
            assert(table_map(s1).insert(snapshot.key@, entry@) =~= t0.entries.insert(snapshot.key@, entry@));
        }
        let mut entries: Vec<ScopeState> = Vec::new();
        std::mem::swap(&mut entries, &mut self.entries);
        entries.set(idx, entry);
        self.entries = entries;
        outcome
    }

    /// How many known scopes are in `state`.
    pub fn count_in(&self, state: DetectionState) -> (r: usize)
        ensures
            r == self@.entries.dom().filter(|k: ScopeKeyView| self@.entries[k].state == state).len(),
    {
        proof {
            use_type_invariant(self);
        }
        let ghost s = entry_views(self.entries@);
        let mut n: usize = 0;
        let mut i: usize = 0;
        while i < self.entries.len()
            invariant
                i <= self.entries@.len(),
                s == entry_views(self.entries@),
                n == count_state(s.subrange(0, i as int), state),
                n <= i,
            decreases self.entries@.len() - i,
        {
            assert(s.subrange(0, i + 1).drop_last() =~= s.subrange(0, i as int));
            if self.entries[i].state == state {
                n = n + 1;
            }
            i = i + 1;
        }
        proof {
            assert(s.subrange(0, s.len() as int) =~= s);
            lemma_count_state(s, state);
        }
        n
    }

    /// Scopes with an open detection, in ascending key order.
    pub fn open_detections(&self) -> (r: Vec<ScopeState>)
        ensures
            keys_of(entry_views(r@)).no_duplicates(),
            keys_ascending(keys_of(entry_views(r@))),
            forall|i: int| 0 <= i < r@.len() ==> self@.entries.dom().contains(#[trigger] r@[i]@.key)
                && r@[i]@ == self@.entries[r@[i]@.key] && is_open_spec(r@[i]@.state),
            forall|k: ScopeKeyView| self@.entries.dom().contains(k) && is_open_spec(self@.entries[k].state)
                ==> #[trigger] keys_of(entry_views(r@)).contains(k),
    {
        proof {
            use_type_invariant(self);
        }
        let ghost s = entry_views(self.entries@);
        let mut keys: Vec<ScopeKey> = Vec::new();
        let mut i: usize = 0;
        while i < self.entries.len()
            invariant
                i <= self.entries@.len(),
                s == entry_views(self.entries@),
                keys_of(s).no_duplicates(),
                key_views(keys@).no_duplicates(),
                forall|k: ScopeKeyView| #[trigger] key_views(keys@).contains(k) <==> exists|j: int| 0 <= j < i && s[j].key == k && is_open_spec(s[j].state),
            decreases self.entries@.len() - i,
        {
            if self.entries[i].state.is_open() {
                let ghost kv = keys@;
                let k = self.entries[i].key.duplicate();
                proof {
                    assert forall|j: int| 0 <= j < key_views(kv).len() implies #[trigger] key_views(kv)[j] != k@ by {
                        assert(key_views(kv).contains(key_views(kv)[j]));
                        let m = choose|m: int| 0 <= m < i && s[m].key == key_views(kv)[j] && is_open_spec(s[m].state);
                        assert(keys_of(s)[m] == s[m].key && keys_of(s)[i as int] == s[i as int].key);
                    }
                }
                keys.push(k);
                proof {
                    assert(key_views(keys@) =~= key_views(kv).push(s[i as int].key));
                    assert forall|k2: ScopeKeyView| #[trigger] key_views(keys@).contains(k2) <==> exists|j: int| 0 <= j < i + 1 && s[j].key == k2 && is_open_spec(s[j].state) by {
                        if key_views(keys@).contains(k2) && k2 != s[i as int].key {
                            let m = choose|m: int| 0 <= m < key_views(keys@).len() && #[trigger] key_views(keys@)[m] == k2;
                            assert(key_views(kv)[m] == k2);
                        }
                        if key_views(kv).contains(k2) {
                            let m = choose|m: int| 0 <= m < key_views(kv).len() && #[trigger] key_views(kv)[m] == k2;
                            assert(key_views(keys@)[m] == k2);
                        }
                        assert(key_views(keys@)[kv.len() as int] == s[i as int].key);
                    }
                }
            }
            i = i + 1;
        }
        let sorted = sort_keys(keys);
        let mut out: Vec<ScopeState> = Vec::new();
        let mut j: usize = 0;
        while j < sorted.len()
            invariant
                j <= sorted@.len(),
                s == entry_views(self.entries@),
                keys_of(s).no_duplicates(),
                key_views(sorted@).no_duplicates(),
                keys_ascending(key_views(sorted@)),
                forall|k: ScopeKeyView| #[trigger] key_views(sorted@).contains(k) <==> exists|m: int| 0 <= m < s.len() && s[m].key == k && is_open_spec(s[m].state),
                keys_of(entry_views(out@)) == key_views(sorted@).subrange(0, j as int),
                forall|m: int| 0 <= m < out@.len() ==> self@.entries.dom().contains(#[trigger] out@[m]@.key)
                    && out@[m]@ == self@.entries[out@[m]@.key] && is_open_spec(out@[m]@.state),
            decreases sorted@.len() - j,
        {
            let ghost kj = key_views(sorted@)[j as int];
            assert(key_views(sorted@).contains(kj));
            let idx = self.find(&sorted[j]);
            proof {
                let m = choose|m: int| 0 <= m < s.len() && s[m].key == kj && is_open_spec(s[m].state);
                lemma_map_at(s, m);
                assert(sorted@[j as int]@ == kj);
            }
            match idx {
                Some(x) => {
                    let e = self.entries[x].duplicate();
                    let ghost before = out@;
                    out.push(e);
                    proof {
                        assert(e@.key == kj);
                        assert(entry_views(out@) =~= entry_views(before).push(e@));
                        assert(keys_of(entry_views(out@)) =~= keys_of(entry_views(before)).push(kj));
                        assert(key_views(sorted@).subrange(0, j + 1) =~= key_views(sorted@).subrange(0, j as int).push(kj));
                    }
                },
                None => {},
            }
            j = j + 1;
        }
        proof {
            assert(key_views(sorted@).subrange(0, sorted@.len() as int) =~= key_views(sorted@));
            assert forall|k: ScopeKeyView| self@.entries.dom().contains(k) && is_open_spec(self@.entries[k].state)
                implies #[trigger] keys_of(entry_views(out@)).contains(k) by {
                let m = keys_of(s).index_of(k);
                assert(keys_of(s)[m] == k);
                lemma_map_at(s, m);
                assert(key_views(sorted@).contains(k));
            }
        }
        out
    }

    /// Closes a scope by operator request: stamps the event time and
    /// resets the scope to `Idle`. Returns the transition, or `None` if
    /// the scope is not known or already idle.
    pub fn manual_reset(&mut self, key: &ScopeKey, now: u128, wall: i128) -> (r: Option<StateTransition>)
        ensures
            final(self)@.config == old(self)@.config,
            final(self)@.stats == old(self)@.stats,
            !old(self)@.entries.dom().contains(key@) ==> final(self)@ == old(self)@ && r is None,
            old(self)@.entries.dom().contains(key@) ==> ({
                let e = ScopeStateView { last_event_at: Some(now), ..old(self)@.entries[key@] };
                let (s2, t) = moved(e, DetectionState::Idle, TransitionReason::ManualReset, now, wall, Seq::empty());
                if e.state != DetectionState::Idle {
                    final(self)@.entries == old(self)@.entries.insert(key@, s2) && (r matches Some(x) && x@ == t)
                } else {
                    final(self)@.entries == old(self)@.entries.insert(key@, e) && r is None
                }
            }),
    {
        proof {
            use_type_invariant(&*self);
        }
        let ghost s0 = entry_views(self.entries@);
        match self.find(key) {
            None => None,
            Some(i) => {
                let mut entry = self.entries[i].duplicate();
                entry.last_event_at = Some(now);
                let t = entry.transition(DetectionState::Idle, TransitionReason::ManualReset, now, wall, Vec::new());
                proof {
                    assert(consistent(s0[i as int]));
                    assert(all_consistent(s0.update(i as int, entry@)));
                    lemma_map_update(s0, i as int, entry@);
                    assert(entry_views(self.entries@.update(i as int, entry)) =~= s0.update(i as int, entry@));
                }
                let mut entries: Vec<ScopeState> = Vec::new();
                std::mem::swap(&mut entries, &mut self.entries);
                entries.set(i, entry);
                self.entries = entries;
                t
            },
        }
    }

    /// Removes each of the given known keys, in order, closing its
    /// entry with `reason`.
    fn close_keys(&mut self, keys: &Vec<ScopeKey>, reason: TransitionReason, now: u128, wall: i128) -> (r: Vec<Expiry>)
        requires
            key_views(keys@).no_duplicates(),
            forall|i: int| 0 <= i < keys@.len() ==> old(self)@.entries.dom().contains(#[trigger] key_views(keys@)[i]),
        ensures
            final(self)@.config == old(self)@.config,
            final(self)@.stats == old(self)@.stats,
            forall|k: ScopeKeyView| #[trigger] final(self)@.entries.dom().contains(k) <==> (old(self)@.entries.dom().contains(k) && !key_views(keys@).contains(k)),
            forall|k: ScopeKeyView| #[trigger] final(self)@.entries.dom().contains(k) ==> final(self)@.entries[k] == old(self)@.entries[k],
            r@.len() == keys@.len(),
            forall|i: int| 0 <= i < r@.len() ==> #[trigger] r@[i]@ == closed_expiry(old(self)@.entries[key_views(keys@)[i]], reason, now, wall),
    {
        proof {
            use_type_invariant(&*self);
        }
        let ghost t0 = self@;
        let mut out: Vec<Expiry> = Vec::new();
        let mut j: usize = 0;
        while j < keys.len()
            invariant
                j <= keys@.len(),
                key_views(keys@).no_duplicates(),
                forall|i: int| 0 <= i < keys@.len() ==> t0.entries.dom().contains(#[trigger] key_views(keys@)[i]),
                keys_of(entry_views(self.entries@)).no_duplicates(),
                all_consistent(entry_views(self.entries@)),
                self@.config == t0.config,
                self@.stats == t0.stats,
                forall|k: ScopeKeyView| #[trigger] self@.entries.dom().contains(k) <==> (t0.entries.dom().contains(k) && !key_views(keys@).subrange(0, j as int).contains(k)),
                forall|k: ScopeKeyView| #[trigger] self@.entries.dom().contains(k) ==> self@.entries[k] == t0.entries[k],
                out@.len() == j,
                forall|i: int| 0 <= i < j ==> #[trigger] out@[i]@ == closed_expiry(t0.entries[key_views(keys@)[i]], reason, now, wall),
            decreases keys@.len() - j,
        {
            let ghost kj = key_views(keys@)[j as int];
            proof {
                if key_views(keys@).subrange(0, j as int).contains(kj) {
                    let m = choose|m: int| 0 <= m < j && #[trigger] key_views(keys@).subrange(0, j as int)[m] == kj;
                    assert(key_views(keys@)[m] == kj);
                }
                assert(self@.entries.dom().contains(kj));
                assert(keys@[j as int]@ == kj);
            }
            let ghost s0 = entry_views(self.entries@);
            match self.find(&keys[j]) {
                Some(idx) => {
                    let mut entries: Vec<ScopeState> = Vec::new();
                    std::mem::swap(&mut entries, &mut self.entries);
                    let mut entry = entries.remove(idx);
                    proof {
                        lemma_map_remove(s0, idx as int);
                        assert(entry_views(entries@) =~= s0.remove(idx as int));
                        assert(all_consistent(s0.remove(idx as int)));
                        assert(s0[idx as int].key == kj);
                    }
                    self.entries = entries;
                    proof {
                        assert(self@.entries == table_map(s0).remove(kj));
                        assert forall|k: ScopeKeyView| #[trigger] self@.entries.dom().contains(k) <==> (t0.entries.dom().contains(k) && !key_views(keys@).subrange(0, j + 1).contains(k)) by {
                            assert(key_views(keys@).subrange(0, j + 1) =~= key_views(keys@).subrange(0, j as int).push(kj));
                            assert(key_views(keys@).subrange(0, j + 1)[j as int] == kj);
                            if key_views(keys@).subrange(0, j + 1).contains(k) && k != kj {
                                let m = choose|m: int| 0 <= m < j + 1 && #[trigger] key_views(keys@).subrange(0, j + 1)[m] == k;
                                assert(key_views(keys@).subrange(0, j as int)[m] == k);
                            }
                            if key_views(keys@).subrange(0, j as int).contains(k) {
                                let m = choose|m: int| 0 <= m < j && #[trigger] key_views(keys@).subrange(0, j as int)[m] == k;
                                assert(key_views(keys@).subrange(0, j + 1)[m] == k);
                            }
                        }
                        assert(entry@ == t0.entries[kj]);
                    }
                    let was_open = entry.state.is_open();
                    let transition = entry.transition(DetectionState::Idle, reason, now, wall, Vec::new());
                    let signal = if was_open { Some(Signal::Ended) } else { None };
                    let key = keys[j].duplicate();
                    out.push(Expiry { key, transition, signal });
                },
                None => {},
            }
            proof {
                assert(key_views(keys@).subrange(0, j + 1) =~= key_views(keys@).subrange(0, j as int).push(kj));
            }
            j = j + 1;
        }
        proof {
            assert(key_views(keys@).subrange(0, keys@.len() as int) =~= key_views(keys@));
        }
        out
    }

    /// Drops every scope that no policy selects any more.
    ///
    /// `still_selected` answers whether a policy still wins a scope. Open
    /// detections are closed with a transition the caller can turn into
    /// an end event; idle ones are simply removed. The result is in
    /// ascending key order.
    pub fn withdraw_unselected(&mut self, now: u128, wall: i128, still_selected: impl Fn(&ScopeKey) -> bool) -> (r: Vec<Expiry>)
        requires
            forall|k: &ScopeKey| #[trigger] still_selected.requires((k,)),
        ensures
            final(self)@.config == old(self)@.config,
            final(self)@.stats == old(self)@.stats,
            keys_ascending(expiry_keys(r@)),
            expiry_keys(r@).no_duplicates(),
            forall|k: ScopeKeyView| #[trigger] final(self)@.entries.dom().contains(k) <==> (old(self)@.entries.dom().contains(k) && !expiry_keys(r@).contains(k)),
            forall|k: ScopeKeyView| #[trigger] final(self)@.entries.dom().contains(k) ==> final(self)@.entries[k] == old(self)@.entries[k]
                && exists|kk: ScopeKey| kk@ == k && still_selected.ensures((&kk,), true),
            forall|i: int| 0 <= i < r@.len() ==> old(self)@.entries.dom().contains(#[trigger] r@[i]@.key)
                && r@[i]@ == closed_expiry(old(self)@.entries[r@[i]@.key], TransitionReason::PolicyWithdrawn, now, wall)
                && exists|kk: ScopeKey| kk@ == r@[i]@.key && still_selected.ensures((&kk,), false),
    {
        let f = &still_selected;
        let keep = move |e: &ScopeState| -> (b: bool)
            ensures
                f.ensures((&e.key,), b),
            { f(&e.key) };
        let ghost t0 = self@;
        let out = self.withdraw_where(now, wall, TransitionReason::PolicyWithdrawn, keep);
        proof {
            assert forall|k: ScopeKeyView| #[trigger] self@.entries.dom().contains(k) implies
                exists|kk: ScopeKey| kk@ == k && still_selected.ensures((&kk,), true) by {
                let ee = choose|ee: ScopeState| ee@ == t0.entries[k] && keep.ensures((&ee,), true);
                assert(ee.key@ == k);
            }
            assert forall|i: int| 0 <= i < out@.len() implies
                exists|kk: ScopeKey| kk@ == (#[trigger] out@[i])@.key && still_selected.ensures((&kk,), false) by {
                let ee = choose|ee: ScopeState| ee@ == t0.entries[out@[i]@.key] && keep.ensures((&ee,), false);
                assert(ee.key@ == out@[i]@.key);
            }
        }
        out
    }

    /// Drops every scope whose policy no longer wins it among `policies`
    /// at the version it was judged under: with `PolicyWithdrawn` where
    /// nothing wins it any more, then with `PolicyChanged` where another
    /// policy or version does. Each group is in ascending key order.
    pub fn withdraw_stale_selection(&mut self, now: u128, wall: i128, policies: &PolicySet) -> (r: Vec<Expiry>)
        ensures
            final(self)@.config == old(self)@.config,
            final(self)@.stats == old(self)@.stats,
            expiry_keys(r@).no_duplicates(),
            forall|k: ScopeKeyView| #[trigger] final(self)@.entries.dom().contains(k) <==> (old(self)@.entries.dom().contains(k)
                && still_selected(policies@, old(self)@.entries[k])),
            forall|k: ScopeKeyView| #[trigger] final(self)@.entries.dom().contains(k) ==> final(self)@.entries[k] == old(self)@.entries[k],
            forall|i: int| 0 <= i < r@.len() ==> old(self)@.entries.dom().contains(#[trigger] r@[i]@.key)
                && !still_selected(policies@, old(self)@.entries[r@[i]@.key])
                && r@[i]@ == closed_expiry(old(self)@.entries[r@[i]@.key], lapse_reason(policies@, r@[i]@.key), now, wall),
    {
        let ordered = policies.iter();
        let ghost ps = policies@;
        let found = |e: &ScopeState| -> (b: bool)
            requires
                ids_ascending(policies@),
            ensures
                b == (winner_of(policies@, e.key@) is Some),
            {
                let w = policies.winner_for(&e.key);
                proof {
                    match w {
                        Some(p) => lemma_winner_of(policies@, e.key@, Some(*p)),
                        None => lemma_winner_of(policies@, e.key@, None),
                    }
                }
                w.is_some()
            };
        let same = |e: &ScopeState| -> (b: bool)
            requires
                ids_ascending(policies@),
            ensures
                b == (winner_of(policies@, e.key@) is None || still_selected(policies@, e@)),
            {
                let w = policies.winner_for(&e.key);
                proof {
                    match w {
                        Some(p) => lemma_winner_of(policies@, e.key@, Some(*p)),
                        None => lemma_winner_of(policies@, e.key@, None),
                    }
                }
                match w {
                    Some(p) => text_eq(p.id.as_str(), e.policy_id.as_str()) && p.version == e.policy_version,
                    None => true,
                }
            };
        let ghost t0 = self@;
        let mut out = self.withdraw_where(now, wall, TransitionReason::PolicyWithdrawn, found);
        let ghost t1 = self@;
        let mut changed = self.withdraw_where(now, wall, TransitionReason::PolicyChanged, same);
        let ghost a = out@;
        let ghost c = changed@;
        out.append(&mut changed);
        proof {
            assert forall|k: ScopeKeyView| t0.entries.dom().contains(k) && !(#[trigger] t1.entries.dom().contains(k))
                implies winner_of(ps, k) is None by {
                assert(expiry_keys(a).contains(k));
                let i = choose|i: int| 0 <= i < a.len() && #[trigger] expiry_keys(a)[i] == k;
                let ee = choose|ee: ScopeState| ee@ == t0.entries[a[i]@.key] && found.ensures((&ee,), false);
            }
            assert forall|k: ScopeKeyView| #[trigger] t1.entries.dom().contains(k) implies winner_of(ps, k) is Some by {
                let ee = choose|ee: ScopeState| ee@ == t0.entries[k] && found.ensures((&ee,), true);
            }
            assert(expiry_keys(out@) =~= expiry_keys(a) + expiry_keys(c));
            assert forall|i: int, m: int| 0 <= i < m < expiry_keys(out@).len() implies expiry_keys(out@)[i] != expiry_keys(out@)[m] by {
                if m < a.len() {
                } else if i >= a.len() {
                    assert(expiry_keys(c)[i - a.len()] == expiry_keys(out@)[i]);
                    assert(expiry_keys(c)[m - a.len()] == expiry_keys(out@)[m]);
                } else {
                    let k = expiry_keys(out@)[m];
                    assert(k == c[m - a.len()]@.key);
                    assert(t1.entries.dom().contains(k));
                    assert(expiry_keys(a).contains(expiry_keys(out@)[i]));
                }
            }
            assert forall|i: int| 0 <= i < out@.len() implies t0.entries.dom().contains(#[trigger] out@[i]@.key)
                && !still_selected(ps, t0.entries[out@[i]@.key])
                && out@[i]@ == closed_expiry(t0.entries[out@[i]@.key], lapse_reason(ps, out@[i]@.key), now, wall) by {
                if i < a.len() {
                    let ee = choose|ee: ScopeState| ee@ == t0.entries[a[i]@.key] && found.ensures((&ee,), false);
                    assert(t0.entries[a[i]@.key].key == a[i]@.key);
                } else {
                    let c = c[i - a.len()];
                    let ee = choose|ee: ScopeState| ee@ == t1.entries[c@.key] && same.ensures((&ee,), false);
                    assert(t1.entries[c@.key].key == c@.key);
                }
            }
            assert forall|k: ScopeKeyView| #[trigger] self@.entries.dom().contains(k) implies still_selected(ps, t0.entries[k]) by {
                let ee = choose|ee: ScopeState| ee@ == t1.entries[k] && same.ensures((&ee,), true);
                assert(t1.entries[k].key == k);
            }
            assert forall|k: ScopeKeyView| t0.entries.dom().contains(k) && still_selected(ps, t0.entries[k]) implies #[trigger] self@.entries.dom().contains(k) by {
                if !t1.entries.dom().contains(k) {
                }
                if !self@.entries.dom().contains(k) {
                    assert(expiry_keys(c).contains(k));
                    let i = choose|i: int| 0 <= i < c.len() && #[trigger] expiry_keys(c)[i] == k;
                    let ee = choose|ee: ScopeState| ee@ == t1.entries[c[i]@.key] && same.ensures((&ee,), false);
                }
            }
        }
        out
    }

    /// Drops every scope whose entry `keep` refuses, closing it with
    /// `reason`; the result is in ascending key order.
    fn withdraw_where(&mut self, now: u128, wall: i128, reason: TransitionReason, keep: impl Fn(&ScopeState) -> bool) -> (r: Vec<Expiry>)
        requires
            forall|e: &ScopeState| #[trigger] keep.requires((e,)),
        ensures
            final(self)@.config == old(self)@.config,
            final(self)@.stats == old(self)@.stats,
            keys_ascending(expiry_keys(r@)),
            expiry_keys(r@).no_duplicates(),
            forall|k: ScopeKeyView| #[trigger] final(self)@.entries.dom().contains(k) <==> (old(self)@.entries.dom().contains(k) && !expiry_keys(r@).contains(k)),
            forall|k: ScopeKeyView| #[trigger] final(self)@.entries.dom().contains(k) ==> final(self)@.entries[k] == old(self)@.entries[k]
                && exists|ee: ScopeState| ee@ == old(self)@.entries[k] && keep.ensures((&ee,), true),
            forall|i: int| 0 <= i < r@.len() ==> old(self)@.entries.dom().contains(#[trigger] r@[i]@.key)
                && r@[i]@ == closed_expiry(old(self)@.entries[r@[i]@.key], reason, now, wall)
                && exists|ee: ScopeState| ee@ == old(self)@.entries[r@[i]@.key] && keep.ensures((&ee,), false),
    {
        proof {
            use_type_invariant(&*self);
        }
        let ghost s = entry_views(self.entries@);
        let mut doomed: Vec<ScopeKey> = Vec::new();
        let mut i: usize = 0;
        while i < self.entries.len()
            invariant
                i <= self.entries@.len(),
                s == entry_views(self.entries@),
                keys_of(s).no_duplicates(),
                forall|e: &ScopeState| #[trigger] keep.requires((e,)),
                key_views(doomed@).no_duplicates(),
                forall|k: ScopeKeyView| #[trigger] key_views(doomed@).contains(k) ==> exists|j: int| 0 <= j < i && s[j].key == k,
                forall|j: int| 0 <= j < i ==> if #[trigger] key_views(doomed@).contains(s[j].key) {
                    keep.ensures((&self.entries@[j],), false)
                } else {
                    keep.ensures((&self.entries@[j],), true)
                },
            decreases self.entries@.len() - i,
        {
            let kept = keep(&self.entries[i]);
            if !kept {
                let ghost dv = doomed@;
                let k = self.entries[i].key.duplicate();
                proof {
                    assert forall|j: int| 0 <= j < key_views(dv).len() implies #[trigger] key_views(dv)[j] != k@ by {
                        assert(key_views(dv).contains(key_views(dv)[j]));
                        let m = choose|m: int| 0 <= m < i && s[m].key == key_views(dv)[j];
                        assert(keys_of(s)[m] == s[m].key && keys_of(s)[i as int] == s[i as int].key);
                    }
                }
                doomed.push(k);
                proof {
                    assert(key_views(doomed@) =~= key_views(dv).push(s[i as int].key));
                    assert(key_views(doomed@)[dv.len() as int] == s[i as int].key);
                    assert forall|k2: ScopeKeyView| #[trigger] key_views(doomed@).contains(k2) implies exists|j: int| 0 <= j < i + 1 && s[j].key == k2 by {
                        if k2 == s[i as int].key {
                            assert(s[i as int].key == k2);
                        } else {
                            let m = choose|m: int| 0 <= m < key_views(doomed@).len() && #[trigger] key_views(doomed@)[m] == k2;
                            assert(key_views(dv)[m] == k2);
                            assert(key_views(dv).contains(k2));
                        }
                    }
                    assert forall|j: int| 0 <= j < i + 1 implies if #[trigger] key_views(doomed@).contains(s[j].key) {
                        keep.ensures((&self.entries@[j],), false)
                    } else {
                        keep.ensures((&self.entries@[j],), true)
                    } by {
                        if j == i {
                            assert(key_views(doomed@)[dv.len() as int] == s[j].key);
                        } else {
                            assert(keys_of(s)[j] == s[j].key && keys_of(s)[i as int] == s[i as int].key);
                            if key_views(doomed@).contains(s[j].key) {
                                let m = choose|m: int| 0 <= m < key_views(doomed@).len() && #[trigger] key_views(doomed@)[m] == s[j].key;
                                assert(m < dv.len());
                                assert(key_views(dv)[m] == s[j].key);
                                assert(key_views(dv).contains(s[j].key));
                            } else {
                                if key_views(dv).contains(s[j].key) {
                                    let m = choose|m: int| 0 <= m < key_views(dv).len() && #[trigger] key_views(dv)[m] == s[j].key;
                                    assert(key_views(doomed@)[m] == s[j].key);
                                }
                            }
                        }
                    }
                }
            } else {
                proof {
                    assert forall|j: int| 0 <= j < i + 1 implies if #[trigger] key_views(doomed@).contains(s[j].key) {
                        keep.ensures((&self.entries@[j],), false)
                    } else {
                        keep.ensures((&self.entries@[j],), true)
                    } by {
                        if j == i && key_views(doomed@).contains(s[j].key) {
                            let m = choose|m: int| 0 <= m < i && s[m].key == s[j].key;
                            assert(keys_of(s)[m] == s[m].key && keys_of(s)[j] == s[j].key);
                        }
                    }
                }
            }
            i = i + 1;
        }
        let sorted = sort_keys(doomed);
        proof {
            assert forall|m: int| 0 <= m < sorted@.len() implies self@.entries.dom().contains(#[trigger] key_views(sorted@)[m]) by {
                assert(key_views(sorted@).contains(key_views(sorted@)[m]));
                let j = choose|j: int| 0 <= j < s.len() && s[j].key == key_views(sorted@)[m];
                lemma_map_at(s, j);
            }
        }
        let ghost t0 = self@;
        let ghost olde = self.entries@;
        let out = self.close_keys(&sorted, reason, now, wall);
        proof {
            lemma_map_keys(s);
            assert forall|m: int| 0 <= m < out@.len() implies #[trigger] expiry_keys(out@)[m] == key_views(sorted@)[m] by {
                let k = key_views(sorted@)[m];
                assert(t0.entries.dom().contains(k));
                assert(t0.entries[k].key == k);
                assert(out@[m]@ == closed_expiry(t0.entries[k], reason, now, wall));
                assert(expiry_keys(out@)[m] == out@[m]@.key);
            }
            assert(expiry_keys(out@) =~= key_views(sorted@));
            assert forall|k: ScopeKeyView| #[trigger] self@.entries.dom().contains(k) implies
                exists|ee: ScopeState| ee@ == old(self)@.entries[k] && keep.ensures((&ee,), true) by {
                let j = keys_of(s).index_of(k);
                assert(keys_of(s)[j] == k);
                assert(!key_views(doomed@).contains(s[j].key));
                assert(olde[j]@.key == k);
            }
            assert forall|m: int| 0 <= m < out@.len() implies
                exists|ee: ScopeState| ee@ == t0.entries[#[trigger] out@[m]@.key] && keep.ensures((&ee,), false) by {
                assert(out@[m]@.key == key_views(sorted@)[m]);
                assert(key_views(sorted@).contains(key_views(sorted@)[m]));
                let j = choose|j: int| 0 <= j < s.len() && s[j].key == key_views(sorted@)[m];
                assert(key_views(doomed@).contains(s[j].key));
            }
        }
        out
    }

    /// Reclaims idle scopes and force-closes scopes whose snapshots
    /// stopped arriving, in ascending key order. Idle reclaims carry no
    /// transition and no signal: there was nothing to close.
    pub fn sweep(&mut self, now: u128, wall: i128) -> (r: Vec<Expiry>)
        ensures
            final(self)@.config == old(self)@.config,
            keys_ascending(expiry_keys(r@)),
            expiry_keys(r@).no_duplicates(),
            forall|k: ScopeKeyView| #[trigger] final(self)@.entries.dom().contains(k) <==> (old(self)@.entries.dom().contains(k)
                && !due_for_sweep(old(self)@.entries[k], old(self)@.config, now)),
            forall|k: ScopeKeyView| #[trigger] final(self)@.entries.dom().contains(k) ==> final(self)@.entries[k] == old(self)@.entries[k],
            forall|k: ScopeKeyView| old(self)@.entries.dom().contains(k) && due_for_sweep(old(self)@.entries[k], old(self)@.config, now)
                ==> #[trigger] expiry_keys(r@).contains(k),
            forall|i: int| 0 <= i < r@.len() ==> old(self)@.entries.dom().contains(#[trigger] r@[i]@.key)
                && due_for_sweep(old(self)@.entries[r@[i]@.key], old(self)@.config, now)
                && r@[i]@ == closed_expiry(old(self)@.entries[r@[i]@.key], TransitionReason::Stale, now, wall),
            final(self)@.stats == (StateTableStats {
                expired_idle: bumped_by(old(self)@.stats.expired_idle, count_reclaimed(expiry_views(r@))),
                expired_stale: bumped_by(old(self)@.stats.expired_stale, (r@.len() - count_reclaimed(expiry_views(r@))) as nat),
                ..old(self)@.stats
            }),
    {
        proof {
            use_type_invariant(&*self);
        }
        let ghost s = entry_views(self.entries@);
        let ghost t0 = self@;
        let idle_ttl = self.config.idle_ttl;
        let stale_after = self.config.stale_after;
        let mut doomed: Vec<ScopeKey> = Vec::new();
        let mut i: usize = 0;
        while i < self.entries.len()
            invariant
                i <= self.entries@.len(),
                s == entry_views(self.entries@),
                t0 == self@,
                idle_ttl == t0.config.idle_ttl,
                stale_after == t0.config.stale_after,
                keys_of(s).no_duplicates(),
                key_views(doomed@).no_duplicates(),
                forall|k: ScopeKeyView| #[trigger] key_views(doomed@).contains(k) <==> exists|j: int| 0 <= j < i && s[j].key == k && due_for_sweep(s[j], t0.config, now),
            decreases self.entries@.len() - i,
        {
            let since = match self.entries[i].last_snapshot_at {
                Some(t) => t,
                None => self.entries[i].entered_at,
            };
            let quiet: u128 = if now >= since { now - since } else { 0 };
            let ttl = if self.entries[i].state == DetectionState::Idle { idle_ttl } else { stale_after };
            if quiet >= ttl {
                let ghost kv = doomed@;
                let k = self.entries[i].key.duplicate();
                proof {
                    assert forall|j: int| 0 <= j < key_views(kv).len() implies #[trigger] key_views(kv)[j] != k@ by {
                        assert(key_views(kv).contains(key_views(kv)[j]));
                        let m = choose|m: int| 0 <= m < i && s[m].key == key_views(kv)[j] && due_for_sweep(s[m], t0.config, now);
                        assert(keys_of(s)[m] == s[m].key && keys_of(s)[i as int] == s[i as int].key);
                    }
                }
                doomed.push(k);
                proof {
                    assert(key_views(doomed@) =~= key_views(kv).push(s[i as int].key));
                    assert forall|k2: ScopeKeyView| #[trigger] key_views(doomed@).contains(k2) <==> exists|j: int| 0 <= j < i + 1 && s[j].key == k2 && due_for_sweep(s[j], t0.config, now) by {
                        if key_views(doomed@).contains(k2) && k2 != s[i as int].key {
                            let m = choose|m: int| 0 <= m < key_views(doomed@).len() && #[trigger] key_views(doomed@)[m] == k2;
                            assert(key_views(kv)[m] == k2);
                            assert(key_views(kv).contains(k2));
                        }
                        if key_views(kv).contains(k2) {
                            let m = choose|m: int| 0 <= m < key_views(kv).len() && #[trigger] key_views(kv)[m] == k2;
                            assert(key_views(doomed@)[m] == k2);
                        }
                        assert(key_views(doomed@)[kv.len() as int] == s[i as int].key);
                    }
                }
            } else {
                proof {
                    assert forall|k2: ScopeKeyView| #[trigger] key_views(doomed@).contains(k2) <==> exists|j: int| 0 <= j < i + 1 && s[j].key == k2 && due_for_sweep(s[j], t0.config, now) by {
                        if exists|j: int| 0 <= j < i + 1 && s[j].key == k2 && due_for_sweep(s[j], t0.config, now) {
                            let j = choose|j: int| 0 <= j < i + 1 && s[j].key == k2 && due_for_sweep(s[j], t0.config, now);
                            assert(j != i);
                        }
                    }
                }
            }
            i = i + 1;
        }
        let sorted = sort_keys(doomed);
        proof {
            lemma_map_keys(s);
            assert forall|m: int| 0 <= m < sorted@.len() implies self@.entries.dom().contains(#[trigger] key_views(sorted@)[m]) by {
                assert(key_views(sorted@).contains(key_views(sorted@)[m]));
                let j = choose|j: int| 0 <= j < s.len() && s[j].key == key_views(sorted@)[m] && due_for_sweep(s[j], t0.config, now);
                lemma_map_at(s, j);
            }
        }
        let out = self.close_keys(&sorted, TransitionReason::Stale, now, wall);
        proof {
            use_type_invariant(&*self);
        }
        let ghost t1 = self@;
        proof {
            assert forall|m: int| 0 <= m < out@.len() implies #[trigger] expiry_keys(out@)[m] == key_views(sorted@)[m] by {
                let k = key_views(sorted@)[m];
                assert(t0.entries.dom().contains(k));
                assert(t0.entries[k].key == k);
                assert(out@[m]@ == closed_expiry(t0.entries[k], TransitionReason::Stale, now, wall));
                assert(expiry_keys(out@)[m] == out@[m]@.key);
            }
            assert(expiry_keys(out@) =~= key_views(sorted@));
            assert forall|k: ScopeKeyView| t0.entries.dom().contains(k) implies
                (key_views(sorted@).contains(k) <==> due_for_sweep(t0.entries[k], t0.config, now)) by {
                let j = keys_of(s).index_of(k);
                assert(keys_of(s)[j] == k);
                lemma_map_at(s, j);
                if key_views(sorted@).contains(k) {
                    let j2 = choose|j2: int| 0 <= j2 < s.len() && s[j2].key == k && due_for_sweep(s[j2], t0.config, now);
                    assert(keys_of(s)[j2] == k);
                }
            }
        }
        let mut idle_n: u64 = self.stats.expired_idle;
        let mut stale_n: u64 = self.stats.expired_stale;
        let mut m: usize = 0;
        while m < out.len()
            invariant
                m <= out@.len(),
                idle_n == bumped_by(t0.stats.expired_idle, count_reclaimed(expiry_views(out@).subrange(0, m as int))),
                stale_n == bumped_by(t0.stats.expired_stale, (m - count_reclaimed(expiry_views(out@).subrange(0, m as int))) as nat),
                count_reclaimed(expiry_views(out@).subrange(0, m as int)) <= m,
            decreases out@.len() - m,
        {
            proof {
                assert(expiry_views(out@).subrange(0, m + 1).drop_last() =~= expiry_views(out@).subrange(0, m as int));
                assert(expiry_views(out@)[m as int] == out@[m as int]@);
            }
            if out[m].transition.is_none() {
                idle_n = idle_n.saturating_add(1);
            } else {
                stale_n = stale_n.saturating_add(1);
            }
            m = m + 1;
        }
        proof {
            assert(expiry_views(out@).subrange(0, out@.len() as int) =~= expiry_views(out@));
        }
        self.stats.expired_idle = idle_n;
        self.stats.expired_stale = stale_n;
        assert(self@.entries == t1.entries);
        out
    }
}

/// Re-delivering a snapshot that was applied changes no entry: the
/// second delivery is refused as a duplicate and raises nothing, so a
/// replay can neither advance a timer nor emit a second start.
pub proof fn law_replayed_snapshot_changes_nothing(t: TableView, p: DetectionPolicy, snap: DetectionSnapshot, e: Evaluation)
    requires
        table_step(t, p, snap, e).1.ignored is None,
    ensures
        ({
            let t1 = table_step(t, p, snap, e).0;
            let (t2, o2) = table_step(t1, p, snap, e);
            &&& t2.entries == t1.entries
            &&& t2.config == t1.config
            &&& o2 == ignored_outcome(StepIgnored::Duplicate, table_step(t, p, snap, e).1.state)
        }),
{
    let k = snap.key@;
    let entry = if t.entries.dom().contains(k) { t.entries[k] } else { fresh_entry(k, p, snap.observed_at) };
    lemma_step_stamps_snapshot(entry, p, snap.observed_at, snap.observed_wall, e.matched@.len() > 0, e.all_below_clear, e.matched@);
}

proof fn lemma_step_stamps_snapshot(s: ScopeStateView, p: DetectionPolicy, now: u128, wall: i128, over: bool, below: bool, matched: Seq<MatchedReason>)
    ensures
        step_spec(s, p, now, wall, over, below, matched).s.last_snapshot_at == Some(now),
{
}

/// A snapshot no newer than the newest one applied to its scope changes
/// no entry and raises nothing: a late or replayed snapshot can neither
/// advance nor rewind the machine.
pub proof fn law_late_snapshot_changes_nothing(t: TableView, p: DetectionPolicy, snap: DetectionSnapshot, e: Evaluation)
    requires
        t.entries.dom().contains(snap.key@),
        t.entries[snap.key@].last_snapshot_at matches Some(last) && snap.observed_at <= last,
    ensures
        table_step(t, p, snap, e).0.entries == t.entries,
        table_step(t, p, snap, e).1.transitions.len() == 0,
        table_step(t, p, snap, e).1.signals.len() == 0,
{
}

/// A step never evicts: every scope known before is known after, only
/// the stepped scope's entry changes, and a table within its cap stays
/// within it.
pub proof fn law_step_never_evicts(t: TableView, p: DetectionPolicy, snap: DetectionSnapshot, e: Evaluation)
    ensures
        ({
            let t2 = table_step(t, p, snap, e).0;
            &&& t2.config == t.config
            &&& forall|k: ScopeKeyView| t.entries.dom().contains(k) ==> #[trigger] t2.entries.dom().contains(k)
            &&& forall|k: ScopeKeyView| k != snap.key@ && #[trigger] t2.entries.dom().contains(k) ==> t.entries.dom().contains(k) && t2.entries[k] == t.entries[k]
            &&& t.entries.dom().finite() && t.entries.len() <= t.config.max_entries ==> t2.entries.dom().finite() && t2.entries.len() <= t.config.max_entries
        }),
{
    let k = snap.key@;
    if t.entries.dom().finite() && !t.entries.dom().contains(k) {
        assert(t.entries.insert(k, fresh_entry(k, p, snap.observed_at)).dom() =~= t.entries.dom().insert(k));
    }
    if t.entries.dom().contains(k) {
        assert(t.entries.insert(k, t.entries[k]).dom() =~= t.entries.dom());
    }
}

/// Every entry of `t` is stored under its own key.
pub open spec fn keyed(t: TableView) -> bool {
    forall|k: ScopeKeyView| t.entries.dom().contains(k) ==> (#[trigger] t.entries[k]).key == k
}

/// A state table keeps each scope's entry under that scope's key.
pub proof fn law_tables_are_keyed(t: StateTable)
    ensures
        keyed(t@),
{
    let s = entry_views(t.entries@);
    assert forall|k: ScopeKeyView| t@.entries.dom().contains(k) implies (#[trigger] t@.entries[k]).key == k by {
        let ks = keys_of(s);
        let j = ks.index_of(k);
        assert(ks[j] == k);
    }
}

/// Feeding one snapshot to a table records only transitions of that
/// snapshot's scope, and raises `Started` exactly when one of them opens
/// a detection, from `Idle` or `PendingTrigger` into `Active`.
pub proof fn law_step_transitions_name_the_snapshot(
    t: TableView,
    p: DetectionPolicy,
    snap: DetectionSnapshot,
    matched: Seq<MatchedReason>,
    below: bool,
)
    requires
        keyed(t),
    ensures
        ({
            let o = table_step_with(t, p, snap, matched, below).1;
            &&& forall|i: int| 0 <= i < o.transitions.len() ==> (#[trigger] o.transitions[i]).key == snap.key@
            &&& o.signals.contains(Signal::Started) <==> exists|i: int| 0 <= i < o.transitions.len() && opens(#[trigger] o.transitions[i])
        }),
{
    let k = snap.key@;
    let now = snap.observed_at;
    let known = t.entries.dom().contains(k);
    let entry = if known { t.entries[k] } else { fresh_entry(k, p, now) };
    law_step_stays_with_its_scope(entry, p, now, snap.observed_wall, matched.len() > 0, below, matched);
    law_started_marks_an_opening_move(entry, p, now, snap.observed_wall, matched.len() > 0, below, matched);
}

/// The state a table holds for `k` before a step, a scope it does not
/// know counting as `Idle`.
pub open spec fn state_before(t: TableView, k: ScopeKeyView) -> DetectionState {
    match state_in(t, k) {
        Some(st) => st,
        None => DetectionState::Idle,
    }
}

/// Feeding one snapshot to a table records at most two transitions; each
/// follows an edge of the machine, each starts where the one before it
/// ended, and together they lead from the scope's state before the step
/// to its state after it. A refused snapshot records none and leaves the
/// entries as they were; an accepted one reports the scope's new state.
pub proof fn law_step_transitions_chain(
    t: TableView,
    p: DetectionPolicy,
    snap: DetectionSnapshot,
    matched: Seq<MatchedReason>,
    below: bool,
)
    ensures
        ({
            let (t2, o) = table_step_with(t, p, snap, matched, below);
            let k = snap.key@;
            &&& o.transitions.len() <= 2
            &&& o.ignored is Some ==> o.transitions.len() == 0 && t2.entries == t.entries
            &&& o.ignored is None ==> {
                &&& t2.entries.dom().contains(k)
                &&& o.state == Some(t2.entries[k].state)
                &&& is_path(o.transitions, state_before(t, k), t2.entries[k].state)
            }
        }),
{
    let k = snap.key@;
    let now = snap.observed_at;
    let known = t.entries.dom().contains(k);
    let entry = if known { t.entries[k] } else { fresh_entry(k, p, now) };
    law_step_follows_the_machine(entry, p, now, snap.observed_wall, matched.len() > 0, below, matched);
}

} // verus!
