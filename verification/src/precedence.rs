//! Deciding which policy governs a scope when several could.
//!
//! Exactly one policy wins per scope key, and the same input always
//! produces the same winner. The ladder, most specific first: an
//! explicit host policy, the longest matching prefix policy, a hostgroup
//! policy, the tenant's default, the global default. Ties are broken by
//! explicit priority, then by policy id: arbitrary but stable, and the
//! reason says when it was used so an operator can add a priority.

use vstd::prelude::*;

verus! {

use crate::input::{ScopeKey, ScopeKeyView};
use crate::policy::{matches_scope_spec, specificity_spec, DetectionPolicy, PolicyError, PolicyErrorView};
use crate::text::{chars_order, compare_strings, flipped, lemma_chars_order_flip, lemma_chars_order_same, lemma_chars_order_trans, KeyOrder};

/// Why one policy beat the others.
#[derive(Debug, Clone, Copy, PartialEq, Eq, Structural)]
pub enum PrecedenceReason {
    /// Nothing else applied.
    OnlyCandidate,
    /// It targeted the scope more specifically.
    MoreSpecific,
    /// Equally specific, but carried a higher explicit priority.
    HigherPriority,
    /// Equally specific and equally prioritised: decided by policy id.
    LowestId,
}

impl PrecedenceReason {
    pub open spec fn name(self) -> Seq<char> {
        match self {
            PrecedenceReason::OnlyCandidate => "onlyCandidate"@,
            PrecedenceReason::MoreSpecific => "moreSpecific"@,
            PrecedenceReason::HigherPriority => "higherPriority"@,
            PrecedenceReason::LowestId => "lowestId"@,
        }
    }

    pub fn as_str(&self) -> (r: &'static str)
        ensures
            r@ == self.name(),
    {
        match self {
            PrecedenceReason::OnlyCandidate => "onlyCandidate",
            PrecedenceReason::MoreSpecific => "moreSpecific",
            PrecedenceReason::HigherPriority => "higherPriority",
            PrecedenceReason::LowestId => "lowestId",
        }
    }
}

/// One policy that could have governed a scope.
#[derive(Debug, Clone, PartialEq, Eq)]
pub struct Candidate {
    pub policy_id: String,
    pub specificity: u32,
    pub priority: i32,
    pub selected: bool,
}

pub struct CandidateView {
    pub policy_id: Seq<char>,
    pub specificity: u32,
    pub priority: i32,
    pub selected: bool,
}

impl View for Candidate {
    type V = CandidateView;

    open spec fn view(&self) -> CandidateView {
        CandidateView { policy_id: self.policy_id@, specificity: self.specificity, priority: self.priority, selected: self.selected }
    }
}

/// The outcome of choosing a policy for one scope, including the losers.
#[derive(Debug, Clone, PartialEq, Eq)]
pub struct Selection {
    pub winner: Option<String>,
    pub reason: Option<PrecedenceReason>,
    /// Best first.
    pub candidates: Vec<Candidate>,
}

impl Selection {
    /// Nothing applied.
    pub fn none() -> (r: Selection)
        ensures
            r.winner is None,
            r.reason is None,
            r.candidates@.len() == 0,
    {
        Selection { winner: None, reason: None, candidates: Vec::new() }
    }
}

/// `a` ranks ahead of `b`: more specific, else higher priority, else a
/// lower id.
pub open spec fn ranks_before(a: CandidateView, b: CandidateView) -> bool {
    ||| a.specificity > b.specificity
    ||| a.specificity == b.specificity && a.priority > b.priority
    ||| a.specificity == b.specificity && a.priority == b.priority && chars_order(a.policy_id, b.policy_id) == KeyOrder::Before
}

/// The candidate a policy makes, before anyone is selected.
pub open spec fn candidate_of(p: DetectionPolicy) -> CandidateView {
    CandidateView { policy_id: p.id@, specificity: specificity_spec(p), priority: p.priority, selected: false }
}

/// Why the first of at least two ranked candidates beat the second.
pub open spec fn reason_between(w: CandidateView, r: CandidateView) -> PrecedenceReason {
    if w.specificity != r.specificity {
        PrecedenceReason::MoreSpecific
    } else if w.priority != r.priority {
        PrecedenceReason::HigherPriority
    } else {
        PrecedenceReason::LowestId
    }
}

proof fn lemma_ranks_trans(a: CandidateView, b: CandidateView, c: CandidateView)
    requires
        ranks_before(a, b),
        ranks_before(b, c),
    ensures
        ranks_before(a, c),
{
    if a.specificity == b.specificity && b.specificity == c.specificity && a.priority == b.priority && b.priority == c.priority {
        lemma_chars_order_trans(a.policy_id, b.policy_id, c.policy_id);
    }
}

proof fn lemma_ranks_total(a: CandidateView, b: CandidateView)
    ensures
        a.policy_id != b.policy_id && !ranks_before(a, b) ==> ranks_before(b, a),
        ranks_before(a, b) ==> !ranks_before(b, a),
{
    lemma_chars_order_flip(a.policy_id, b.policy_id);
    lemma_chars_order_same(a.policy_id, b.policy_id);
}

/// A candidate with its selection mark cleared.
pub open spec fn unselected(c: CandidateView) -> CandidateView {
    CandidateView { selected: false, ..c }
}

/// `c` is the candidate of some policy in `s` that matches `k`.
pub open spec fn is_candidate_in(s: Seq<DetectionPolicy>, k: ScopeKeyView, c: CandidateView) -> bool {
    exists|j: int| 0 <= j < s.len() && matches_scope_spec(s[j], k) && #[trigger] candidate_of(s[j]) == c
}

/// The views of a sequence of candidates.
pub open spec fn candidate_views(c: Seq<Candidate>) -> Seq<CandidateView> {
    c.map_values(|x: Candidate| x@)
}

fn rank_before(a: &Candidate, b: &Candidate) -> (r: bool)
    ensures
        r == ranks_before(a@, b@),
{
    if a.specificity != b.specificity {
        return a.specificity > b.specificity;
    }
    if a.priority != b.priority {
        return a.priority > b.priority;
    }
    compare_strings(a.policy_id.as_str(), b.policy_id.as_str()) == KeyOrder::Before
}

/// Strictly ascending ids.
pub open spec fn ids_ascending(s: Seq<DetectionPolicy>) -> bool {
    forall|i: int, j: int| 0 <= i < j < s.len() ==> chars_order(#[trigger] s[i].id@, #[trigger] s[j].id@) == KeyOrder::Before
}

/// Index of the first policy whose id already occurred before it.
pub open spec fn first_repeat(s: Seq<DetectionPolicy>) -> Option<int>
    decreases s.len(),
{
    if s.len() == 0 {
        None
    } else {
        match first_repeat(s.drop_last()) {
            Some(i) => Some(i),
            None => if exists|j: int| 0 <= j < s.len() - 1 && #[trigger] s[j].id@ == s.last().id@ { Some(s.len() - 1) } else { None },
        }
    }
}

/// A validated, duplicate-free set of policies, ordered by id so that
/// selection cannot depend on insertion order.
#[derive(Debug)]
pub struct PolicySet {
    policies: Vec<DetectionPolicy>,
}

impl View for PolicySet {
    type V = Seq<DetectionPolicy>;

    closed spec fn view(&self) -> Seq<DetectionPolicy> {
        self.policies@
    }
}

/// The candidates of the policies in `s` that match `k`, ranked.
pub open spec fn ranked(c: Seq<CandidateView>) -> bool {
    forall|i: int, j: int| 0 <= i < j < c.len() ==> ranks_before(#[trigger] c[i], #[trigger] c[j])
}

impl PolicySet {
    #[verifier::type_invariant]
    spec fn wf(self) -> bool {
        ids_ascending(self.policies@)
    }

    /// An empty set.
    pub fn new() -> (r: PolicySet)
        ensures
            r@ == Seq::<DetectionPolicy>::empty(),
    {
        PolicySet { policies: Vec::new() }
    }

    /// The policies, in ascending id order; ids are distinct.
    pub fn iter(&self) -> (r: &Vec<DetectionPolicy>)
        ensures
            r@ == self@,
            ids_ascending(self@),
    {
        proof {
            use_type_invariant(self);
        }
        &self.policies
    }

    pub fn len(&self) -> (r: usize)
        ensures
            r == self@.len(),
    {
        self.policies.len()
    }

    pub fn is_empty(&self) -> (r: bool)
        ensures
            r == (self@.len() == 0),
    {
        self.policies.len() == 0
    }

    /// The policy with `id`, if any.
    pub fn get(&self, id: &str) -> (r: Option<&DetectionPolicy>)
        ensures
            match r {
                Some(p) => self@.contains(*p) && p.id@ == id@
                    && forall|i: int| 0 <= i < self@.len() && #[trigger] self@[i].id@ == id@ ==> self@[i] == *p,
                None => forall|i: int| 0 <= i < self@.len() ==> #[trigger] self@[i].id@ != id@,
            },
    {
        proof {
            use_type_invariant(self);
        }
        let mut i: usize = 0;
        while i < self.policies.len()
            invariant
                i <= self.policies@.len(),
                ids_ascending(self@),
                forall|j: int| 0 <= j < i ==> #[trigger] self.policies@[j].id@ != id@,
            decreases self.policies@.len() - i,
        {
            let o = compare_strings(self.policies[i].id.as_str(), id);
            proof {
                lemma_chars_order_same(self.policies@[i as int].id@, id@);
            }
            if o == KeyOrder::Same {
                assert(self@[i as int] == self.policies@[i as int]);
                proof {
                    assert forall|j: int| 0 <= j < self@.len() && #[trigger] self@[j].id@ == id@ implies self@[j] == self@[i as int] by {
                        if j != i {
                            lemma_chars_order_same(self@[i as int].id@, self@[i as int].id@);
                            if j < i {
                                assert(chars_order(self@[j].id@, self@[i as int].id@) == KeyOrder::Before);
                            } else {
                                assert(chars_order(self@[i as int].id@, self@[j].id@) == KeyOrder::Before);
                            }
                        }
                    }
                }
                return Some(&self.policies[i]);
            }
            i = i + 1;
        }
        None
    }

    /// Builds a set, rejecting the first policy whose id was already
    /// seen.
    pub fn from_policies(policies: Vec<DetectionPolicy>) -> (r: Result<PolicySet, PolicyError>)
        ensures
            match first_repeat(policies@) {
                Some(i) => r matches Err(e) && e@ == PolicyErrorView::DuplicateId(policies@[i].id@),
                None => r matches Ok(set) && set@.len() == policies@.len() && ids_ascending(set@)
                    && forall|p: DetectionPolicy| #[trigger] set@.contains(p) <==> policies@.contains(p),
            },
    {
        let ghost input = policies@;
        let n = policies.len();
        let mut rest = policies;
        let mut out: Vec<DetectionPolicy> = Vec::new();
        let mut i: usize = 0;
        while rest.len() > 0
            invariant
                i <= input.len(),
                input.len() == n,
                input == policies@,
                rest@ == input.subrange(i as int, input.len() as int),
                out@.len() == i,
                ids_ascending(out@),
                forall|x: DetectionPolicy| #[trigger] out@.contains(x) <==> input.subrange(0, i as int).contains(x),
                first_repeat(input.subrange(0, i as int)) is None,
            decreases rest@.len(),
        {
            let p = rest.remove(0);
            assert(p == input[i as int]);
            let mut q: usize = 0;
            while q < out.len()
                invariant
                    q <= out@.len(),
                    forall|j: int| 0 <= j < q ==> chars_order(#[trigger] out@[j].id@, p.id@) == KeyOrder::Before,
                ensures
                    q <= out@.len(),
                    forall|j: int| 0 <= j < q ==> chars_order(#[trigger] out@[j].id@, p.id@) == KeyOrder::Before,
                    q < out@.len() ==> chars_order(p.id@, out@[q as int].id@) != KeyOrder::After,
                decreases out@.len() - q,
            {
                let o = compare_strings(p.id.as_str(), out[q].id.as_str());
                if o != KeyOrder::After {
                    break;
                }
                proof {
                    lemma_chars_order_flip(p.id@, out@[q as int].id@);
                }
                q = q + 1;
            }
            let ghost prefix = input.subrange(0, i as int);
            proof {
                assert(input.subrange(0, i + 1) =~= prefix.push(p));
                assert(input.subrange(0, i + 1).drop_last() =~= prefix);
            }
            if q < out.len() {
                let o = compare_strings(p.id.as_str(), out[q].id.as_str());
                if o == KeyOrder::Same {
                    proof {
                        lemma_chars_order_same(p.id@, out@[q as int].id@);
                        assert(out@.contains(out@[q as int]));
                        let j = choose|j: int| 0 <= j < prefix.len() && #[trigger] prefix[j] == out@[q as int];
                        assert(input.subrange(0, i + 1)[j].id@ == input.subrange(0, i + 1).last().id@);
                        assert(first_repeat(input.subrange(0, i + 1)) == Some(i as int));
                        lemma_first_repeat_prefix(input, i as int + 1);
                        assert(first_repeat(input) == Some(i as int));
                        assert(input[i as int].id@ == p.id@);
                    }
                    return Err(PolicyError::DuplicateId { id: p.id });
                }
            }
            proof {
                assert forall|j: int| 0 <= j < out@.len() implies chars_order(#[trigger] out@[j].id@, p.id@) != KeyOrder::Same by {
                    if j >= q {
                        if j > q {
                            lemma_chars_order_trans(p.id@, out@[q as int].id@, out@[j].id@);
                        }
                        lemma_chars_order_flip(p.id@, out@[j].id@);
                    }
                }
                assert forall|j: int| 0 <= j < prefix.len() implies #[trigger] prefix[j].id@ != p.id@ by {
                    assert(prefix.contains(prefix[j]));
                    assert(out@.contains(prefix[j]));
                    let m = choose|m: int| 0 <= m < out@.len() && #[trigger] out@[m] == prefix[j];
                    lemma_chars_order_same(out@[m].id@, p.id@);
                }
                let s1 = input.subrange(0, i + 1);
                if exists|j: int| 0 <= j < s1.len() - 1 && #[trigger] s1[j].id@ == s1.last().id@ {
                    let j = choose|j: int| 0 <= j < s1.len() - 1 && #[trigger] s1[j].id@ == s1.last().id@;
                    assert(prefix[j].id@ == p.id@);
                }
            }
            let ghost old_out = out@;
            out.insert(q, p);
            proof {
                assert forall|a: int, b: int| 0 <= a < b < out@.len() implies chars_order(#[trigger] out@[a].id@, #[trigger] out@[b].id@) == KeyOrder::Before by {
                    if b < q {
                        assert(out@[a] == old_out[a] && out@[b] == old_out[b]);
                    } else if b == q {
                        assert(out@[a] == old_out[a]);
                    } else if a < q {
                        assert(out@[a] == old_out[a] && out@[b] == old_out[b - 1]);
                        lemma_chars_order_trans(old_out[a].id@, p.id@, old_out[q as int].id@);
                        if b - 1 > q {
                            lemma_chars_order_trans(old_out[a].id@, old_out[q as int].id@, old_out[b - 1].id@);
                        }
                    } else if a == q {
                        assert(out@[b] == old_out[b - 1]);
                        lemma_chars_order_same(p.id@, old_out[q as int].id@);
                        if b - 1 > q {
                            lemma_chars_order_trans(p.id@, old_out[q as int].id@, old_out[b - 1].id@);
                        }
                    } else {
                        assert(out@[a] == old_out[a - 1] && out@[b] == old_out[b - 1]);
                    }
                }
                assert forall|x: DetectionPolicy| #[trigger] out@.contains(x) <==> input.subrange(0, i + 1).contains(x) by {
                    let s1 = input.subrange(0, i + 1);
                    if out@.contains(x) {
                        let m = choose|m: int| 0 <= m < out@.len() && #[trigger] out@[m] == x;
                        if m < q {
                            assert(old_out[m] == x);
                        } else if m > q {
                            assert(old_out[m - 1] == x);
                        }
                        if x != p {
                            assert(old_out.contains(x));
                            let j = choose|j: int| 0 <= j < prefix.len() && #[trigger] prefix[j] == x;
                            assert(s1[j] == x);
                        } else {
                            assert(s1[i as int] == x);
                        }
                    }
                    if s1.contains(x) {
                        let j = choose|j: int| 0 <= j < s1.len() && #[trigger] s1[j] == x;
                        if j == i {
                            assert(out@[q as int] == x);
                        } else {
                            assert(prefix[j] == x);
                            assert(old_out.contains(x));
                            let m = choose|m: int| 0 <= m < old_out.len() && #[trigger] old_out[m] == x;
                            if m < q {
                                assert(out@[m] == x);
                            } else {
                                assert(out@[m + 1] == x);
                            }
                        }
                    }
                }
                assert(rest@ =~= input.subrange(i + 1, input.len() as int));
            }
            i = i + 1;
        }
        proof {
            assert(input.subrange(0, input.len() as int) =~= input);
        }
        Ok(PolicySet { policies: out })
    }

    /// Chooses the governing policy for `key`, with every candidate,
    /// best first.
    pub fn select(&self, key: &ScopeKey) -> (r: Selection)
        ensures
            ({
                let c = candidate_views(r.candidates@);
                &&& ranked(c)
                &&& forall|i: int| 0 <= i < c.len() ==> (#[trigger] c[i]).selected == (i == 0)
                &&& forall|i: int| 0 <= i < c.len() ==> is_candidate_in(self@, key@, unselected(#[trigger] c[i]))
                &&& forall|j: int| 0 <= j < self@.len() && matches_scope_spec(#[trigger] self@[j], key@)
                    ==> exists|i: int| 0 <= i < c.len() && unselected(#[trigger] c[i]) == candidate_of(self@[j])
                &&& c.len() == 0 ==> r.winner is None && r.reason is None
                &&& c.len() > 0 ==> (r.winner matches Some(w) && w@ == c[0].policy_id)
                &&& c.len() == 1 ==> r.reason == Some(PrecedenceReason::OnlyCandidate)
                &&& c.len() > 1 ==> r.reason == Some(reason_between(c[0], c[1]))
            }),
    {
        proof {
            use_type_invariant(self);
        }
        let ghost s = self.policies@;
        let mut cands: Vec<Candidate> = Vec::new();
        let mut j: usize = 0;
        while j < self.policies.len()
            invariant
                j <= s.len(),
                s == self.policies@,
                s == self@,
                ids_ascending(s),
                ranked(candidate_views(cands@)),
                forall|i: int| 0 <= i < cands@.len() ==> !(#[trigger] cands@[i]).selected,
                forall|x: CandidateView| #[trigger] candidate_views(cands@).contains(x) <==> matching_candidates(s, key@, j as int).contains(x),
            decreases s.len() - j,
        {
            let ghost mc = matching_candidates(s, key@, j as int);
            proof {
                lemma_matching_ids_before(s, key@, j as int);
            }
            if self.policies[j].matches_scope(key) {
                let c = Candidate {
                    policy_id: self.policies[j].id.clone(),
                    specificity: self.policies[j].specificity(),
                    priority: self.policies[j].priority,
                    selected: false,
                };
                assert(c@ == candidate_of(s[j as int]));
                let ghost cv = candidate_views(cands@);
                let mut q: usize = 0;
                while q < cands.len()
                    invariant
                        q <= cands@.len(),
                        cv == candidate_views(cands@),
                        forall|i: int| 0 <= i < q ==> !ranks_before(c@, #[trigger] cv[i]),
                    ensures
                        q <= cands@.len(),
                        forall|i: int| 0 <= i < q ==> !ranks_before(c@, #[trigger] cv[i]),
                        q < cands@.len() ==> ranks_before(c@, cv[q as int]),
                    decreases cands@.len() - q,
                {
                    if rank_before(&c, &cands[q]) {
                        break;
                    }
                    q = q + 1;
                }
                proof {
                    assert forall|i: int| 0 <= i < cv.len() implies #[trigger] cv[i].policy_id != c@.policy_id by {
                        assert(cv.contains(cv[i]));
                        assert(mc.contains(cv[i]));
                    }
                    lemma_ranked_insert(cv, q as int, c@);
                }
                let ghost old_c = cands@;
                cands.insert(q, c);
                proof {
                    assert(candidate_views(cands@) =~= cv.insert(q as int, c@));
                    assert(matching_candidates(s, key@, j + 1) == mc.push(c@));
                    lemma_insert_contains(cv, q as int, c@);
                    assert forall|x: CandidateView| #[trigger] candidate_views(cands@).contains(x) <==> matching_candidates(s, key@, j + 1).contains(x) by {
                        assert(cv.insert(q as int, c@).contains(x) <==> (cv.contains(x) || x == c@));
                        if mc.contains(x) {
                            assert(cv.contains(x));
                        }
                        if mc.push(c@).contains(x) && x != c@ {
                            let m = choose|m: int| 0 <= m < mc.len() + 1 && #[trigger] mc.push(c@)[m] == x;
                            assert(mc[m] == x);
                        }
                        if cv.contains(x) {
                            assert(mc.contains(x));
                            assert(mc.push(c@)[mc.index_of(x)] == x);
                        }
                        assert(mc.push(c@)[mc.len() as int] == c@);
                    }
                    assert forall|i: int| 0 <= i < cands@.len() implies !(#[trigger] cands@[i]).selected by {
                        if i < q {
                            assert(cands@[i] == old_c[i]);
                        } else if i > q {
                            assert(cands@[i] == old_c[i - 1]);
                        }
                    }
                }
            } else {
                proof {
                    assert(matching_candidates(s, key@, j + 1) == mc);
                }
            }
            j = j + 1;
        }
        proof {
            lemma_matching_candidates(s, key@, s.len() as int);
        }
        let mut out: Vec<Candidate> = Vec::new();
        let mut i: usize = 0;
        while i < cands.len()
            invariant
                i <= cands@.len(),
                out@.len() == i,
                forall|m: int| 0 <= m < i ==> (#[trigger] out@[m])@ == (CandidateView { selected: m == 0, ..cands@[m]@ }),
            decreases cands@.len() - i,
        {
            let c = Candidate {
                policy_id: cands[i].policy_id.clone(),
                specificity: cands[i].specificity,
                priority: cands[i].priority,
                selected: i == 0,
            };
            out.push(c);
            i = i + 1;
        }
        proof {
            let c = candidate_views(out@);
            let cv = candidate_views(cands@);
            assert forall|m: int| 0 <= m < c.len() implies unselected(#[trigger] c[m]) == cv[m] by {
                assert(c[m] == out@[m]@);
            }
            assert forall|a: int, b: int| 0 <= a < b < c.len() implies ranks_before(#[trigger] c[a], #[trigger] c[b]) by {
                assert(unselected(c[a]) == cv[a] && unselected(c[b]) == cv[b]);
            }
            assert forall|m: int| 0 <= m < c.len() implies is_candidate_in(self@, key@, unselected(#[trigger] c[m])) by {
                assert(unselected(c[m]) == cv[m]);
                assert(cv.contains(cv[m]));
            }
            assert forall|m: int| 0 <= m < self@.len() && matches_scope_spec(#[trigger] self@[m], key@)
                implies exists|x: int| 0 <= x < c.len() && unselected(#[trigger] c[x]) == candidate_of(self@[m]) by {
                assert(cv.contains(candidate_of(s[m])));
                let x = choose|x: int| 0 <= x < cv.len() && #[trigger] cv[x] == candidate_of(s[m]);
                assert(unselected(c[x]) == cv[x]);
            }
        }
        if out.len() == 0 {
            return Selection { winner: None, reason: None, candidates: out };
        }
        let reason = if out.len() == 1 {
            PrecedenceReason::OnlyCandidate
        } else if out[0].specificity != out[1].specificity {
            PrecedenceReason::MoreSpecific
        } else if out[0].priority != out[1].priority {
            PrecedenceReason::HigherPriority
        } else {
            PrecedenceReason::LowestId
        };
        let winner = out[0].policy_id.clone();
        Selection { winner: Some(winner), reason: Some(reason), candidates: out }
    }

    /// The winning policy for `key`: a matching policy whose candidate
    /// outranks that of every other matching policy; `None` when none
    /// matches.
    pub fn winner_for(&self, key: &ScopeKey) -> (r: Option<&DetectionPolicy>)
        ensures
            match r {
                Some(p) => is_winner(self@, key@, *p),
                None => forall|j: int| 0 <= j < self@.len() ==> !matches_scope_spec(#[trigger] self@[j], key@),
            },
    {
        proof {
            use_type_invariant(self);
        }
        let sel = self.select(key);
        let ghost c = candidate_views(sel.candidates@);
        match sel.winner {
            None => {
                proof {
                    assert forall|j: int| 0 <= j < self@.len() implies !matches_scope_spec(#[trigger] self@[j], key@) by {
                        if matches_scope_spec(self@[j], key@) {
                            let i = choose|i: int| 0 <= i < c.len() && unselected(#[trigger] c[i]) == candidate_of(self@[j]);
                        }
                    }
                }
                None
            },
            Some(id) => {
                let r = self.get(id.as_str());
                proof {
                    assert(is_candidate_in(self@, key@, unselected(c[0])));
                    let j0 = choose|j: int| 0 <= j < self@.len() && matches_scope_spec(self@[j], key@) && #[trigger] candidate_of(self@[j]) == unselected(c[0]);
                    match r {
                        Some(p) => {
                            let m = choose|m: int| 0 <= m < self@.len() && self@[m] == *p;
                            if m != j0 {
                                if m < j0 {
                                    assert(chars_order(self@[m].id@, self@[j0].id@) == KeyOrder::Before);
                                } else {
                                    assert(chars_order(self@[j0].id@, self@[m].id@) == KeyOrder::Before);
                                }
                                lemma_chars_order_same(self@[m].id@, self@[j0].id@);
                            }
                            assert forall|j: int| 0 <= j < self@.len() && matches_scope_spec(#[trigger] self@[j], key@) && self@[j].id@ != p.id@
                                implies ranks_before(candidate_of(*p), candidate_of(self@[j])) by {
                                let i = choose|i: int| 0 <= i < c.len() && unselected(#[trigger] c[i]) == candidate_of(self@[j]);
                                if i == 0 {
                                    assert(candidate_of(self@[j]).policy_id == p.id@);
                                }
                                assert(ranks_before(c[0], c[i]));
                            }
                        },
                        None => {
                            assert(self@[j0].id@ == id@);
                        },
                    }
                }
                r
            },
        }
    }
}

/// The candidates of the policies among the first `n` of `s` that
/// match `k`, in policy order.
pub open spec fn matching_candidates(s: Seq<DetectionPolicy>, k: ScopeKeyView, n: int) -> Seq<CandidateView>
    decreases n,
{
    if n <= 0 {
        Seq::empty()
    } else if matches_scope_spec(s[n - 1], k) {
        matching_candidates(s, k, n - 1).push(candidate_of(s[n - 1]))
    } else {
        matching_candidates(s, k, n - 1)
    }
}

proof fn lemma_matching_ids_before(s: Seq<DetectionPolicy>, k: ScopeKeyView, n: int)
    requires
        ids_ascending(s),
        0 <= n < s.len(),
    ensures
        forall|x: CandidateView| #[trigger] matching_candidates(s, k, n).contains(x) ==> x.policy_id != s[n].id@,
    decreases n,
{
    if n > 0 {
        lemma_matching_ids_before(s, k, n - 1);
        assert forall|x: CandidateView| #[trigger] matching_candidates(s, k, n).contains(x) implies x.policy_id != s[n].id@ by {
            let prev = matching_candidates(s, k, n - 1);
            assert(chars_order(s[n - 1].id@, s[n].id@) == KeyOrder::Before);
            lemma_chars_order_same(s[n - 1].id@, s[n].id@);
            if matches_scope_spec(s[n - 1], k) {
                if x != candidate_of(s[n - 1]) {
                    let m = choose|m: int| 0 <= m < prev.len() + 1 && #[trigger] prev.push(candidate_of(s[n - 1]))[m] == x;
                    assert(prev[m] == x);
                    assert(prev.contains(x));
                    assert(x.policy_id != s[n - 1].id@ || true);
                    lemma_matching_ids_from(s, k, n - 1, x);
                    let w = choose|w: int| 0 <= w < n - 1 && s[w].id@ == x.policy_id;
                    assert(chars_order(s[w].id@, s[n].id@) == KeyOrder::Before);
                    lemma_chars_order_same(s[w].id@, s[n].id@);
                }
            } else {
                lemma_matching_ids_from(s, k, n - 1, x);
                let w = choose|w: int| 0 <= w < n - 1 && s[w].id@ == x.policy_id;
                assert(chars_order(s[w].id@, s[n].id@) == KeyOrder::Before);
                lemma_chars_order_same(s[w].id@, s[n].id@);
            }
        }
    }
}

proof fn lemma_matching_ids_from(s: Seq<DetectionPolicy>, k: ScopeKeyView, n: int, x: CandidateView)
    requires
        0 <= n <= s.len(),
        matching_candidates(s, k, n).contains(x),
    ensures
        exists|w: int| 0 <= w < n && s[w].id@ == x.policy_id,
    decreases n,
{
    lemma_matching_candidates(s, k, n);
    let w = choose|w: int| 0 <= w < n && matches_scope_spec(s[w], k) && #[trigger] candidate_of(s[w]) == x;
    assert(s[w].id@ == x.policy_id);
}

proof fn lemma_matching_candidates(s: Seq<DetectionPolicy>, k: ScopeKeyView, n: int)
    requires
        0 <= n <= s.len(),
    ensures
        forall|x: CandidateView| #[trigger] matching_candidates(s, k, n).contains(x)
            <==> exists|m: int| 0 <= m < n && matches_scope_spec(s[m], k) && #[trigger] candidate_of(s[m]) == x,
    decreases n,
{
    if n > 0 {
        lemma_matching_candidates(s, k, n - 1);
        let prev = matching_candidates(s, k, n - 1);
        assert forall|x: CandidateView| #[trigger] matching_candidates(s, k, n).contains(x)
            <==> exists|m: int| 0 <= m < n && matches_scope_spec(s[m], k) && #[trigger] candidate_of(s[m]) == x by {
            if matches_scope_spec(s[n - 1], k) {
                let cur = prev.push(candidate_of(s[n - 1]));
                if cur.contains(x) {
                    let i = choose|i: int| 0 <= i < cur.len() && #[trigger] cur[i] == x;
                    if i < prev.len() {
                        assert(prev[i] == x);
                        assert(prev.contains(x));
                    } else {
                        assert(candidate_of(s[n - 1]) == x);
                    }
                }
                if exists|m: int| 0 <= m < n && matches_scope_spec(s[m], k) && #[trigger] candidate_of(s[m]) == x {
                    let m = choose|m: int| 0 <= m < n && matches_scope_spec(s[m], k) && #[trigger] candidate_of(s[m]) == x;
                    if m < n - 1 {
                        assert(prev.contains(x));
                        let i = choose|i: int| 0 <= i < prev.len() && #[trigger] prev[i] == x;
                        assert(cur[i] == x);
                    } else {
                        assert(cur[prev.len() as int] == x);
                    }
                }
            } else {
                if exists|m: int| 0 <= m < n && matches_scope_spec(s[m], k) && #[trigger] candidate_of(s[m]) == x {
                    let m = choose|m: int| 0 <= m < n && matches_scope_spec(s[m], k) && #[trigger] candidate_of(s[m]) == x;
                    assert(m < n - 1);
                }
            }
        }
    }
}

pub(crate) proof fn lemma_insert_contains<A>(s: Seq<A>, q: int, x: A)
    requires
        0 <= q <= s.len(),
    ensures
        forall|y: A| #[trigger] s.insert(q, x).contains(y) <==> (s.contains(y) || y == x),
{
    let nv = s.insert(q, x);
    assert forall|y: A| #[trigger] nv.contains(y) <==> (s.contains(y) || y == x) by {
        if nv.contains(y) {
            let j = choose|j: int| 0 <= j < nv.len() && #[trigger] nv[j] == y;
            if j < q {
                assert(s[j] == y);
            } else if j > q {
                assert(s[j - 1] == y);
            }
        }
        if s.contains(y) {
            let j = choose|j: int| 0 <= j < s.len() && #[trigger] s[j] == y;
            if j < q {
                assert(nv[j] == y);
            } else {
                assert(nv[j + 1] == y);
            }
        }
        if y == x {
            assert(nv[q] == y);
        }
    }
}

proof fn lemma_ranked_insert(cv: Seq<CandidateView>, q: int, x: CandidateView)
    requires
        ranked(cv),
        0 <= q <= cv.len(),
        forall|i: int| 0 <= i < q ==> !ranks_before(x, #[trigger] cv[i]),
        q < cv.len() ==> ranks_before(x, cv[q]),
        forall|i: int| 0 <= i < cv.len() ==> #[trigger] cv[i].policy_id != x.policy_id,
    ensures
        ranked(cv.insert(q, x)),
{
    let nv = cv.insert(q, x);
    assert forall|a: int, b: int| 0 <= a < b < nv.len() implies ranks_before(#[trigger] nv[a], #[trigger] nv[b]) by {
        if b < q {
            assert(nv[a] == cv[a] && nv[b] == cv[b]);
        } else if b == q {
            assert(nv[a] == cv[a]);
            lemma_ranks_total(x, cv[a]);
        } else if a < q {
            assert(nv[a] == cv[a] && nv[b] == cv[b - 1]);
            lemma_ranks_total(x, cv[a]);
            if b - 1 > q {
                lemma_ranks_trans(x, cv[q], cv[b - 1]);
            }
            lemma_ranks_trans(cv[a], x, cv[b - 1]);
        } else if a == q {
            assert(nv[b] == cv[b - 1]);
            if b - 1 > q {
                lemma_ranks_trans(x, cv[q], cv[b - 1]);
            }
        } else {
            assert(nv[a] == cv[a - 1] && nv[b] == cv[b - 1]);
        }
    }
}

proof fn lemma_first_repeat_prefix(s: Seq<DetectionPolicy>, n: int)
    requires
        0 <= n <= s.len(),
        first_repeat(s.subrange(0, n)) is Some,
    ensures
        first_repeat(s) == first_repeat(s.subrange(0, n)),
    decreases s.len() - n,
{
    if n < s.len() {
        assert(s.subrange(0, n + 1).drop_last() =~= s.subrange(0, n));
        lemma_first_repeat_prefix(s, n + 1);
    } else {
        assert(s.subrange(0, n) =~= s);
    }
}

/// Whether `p` is a matching policy of `s` whose candidate outranks that
/// of every other matching policy, as [`PolicySet::winner_for`] returns.
pub open spec fn is_winner(s: Seq<DetectionPolicy>, k: ScopeKeyView, p: DetectionPolicy) -> bool {
    &&& s.contains(p)
    &&& matches_scope_spec(p, k)
    &&& forall|j: int| 0 <= j < s.len() && matches_scope_spec(#[trigger] s[j], k) && s[j].id@ != p.id@
        ==> ranks_before(candidate_of(p), candidate_of(s[j]))
}

/// Exactly one policy wins a scope: in a set with distinct ids, two
/// winners for the same key are the same policy, so the same input
/// always yields the same winner.
pub proof fn law_the_winner_is_unique(s: Seq<DetectionPolicy>, k: ScopeKeyView, p1: DetectionPolicy, p2: DetectionPolicy)
    requires
        ids_ascending(s),
        is_winner(s, k, p1),
        is_winner(s, k, p2),
    ensures
        p1 == p2,
{
    let a = choose|a: int| 0 <= a < s.len() && s[a] == p1;
    let b = choose|b: int| 0 <= b < s.len() && s[b] == p2;
    if p1.id@ != p2.id@ {
        assert(ranks_before(candidate_of(p1), candidate_of(s[b])));
        assert(ranks_before(candidate_of(p2), candidate_of(s[a])));
        lemma_ranks_total(candidate_of(p1), candidate_of(p2));
    } else if a != b {
        if a < b {
            assert(chars_order(s[a].id@, s[b].id@) == KeyOrder::Before);
        } else {
            assert(chars_order(s[b].id@, s[a].id@) == KeyOrder::Before);
        }
        lemma_chars_order_same(s[a].id@, s[b].id@);
    }
}

/// The policy that wins `k` among `s`, if any.
pub open spec fn winner_of(s: Seq<DetectionPolicy>, k: ScopeKeyView) -> Option<DetectionPolicy> {
    if exists|p: DetectionPolicy| is_winner(s, k, p) {
        Some(choose|p: DetectionPolicy| is_winner(s, k, p))
    } else {
        None
    }
}

/// What [`PolicySet::winner_for`] returns is [`winner_of`] its policies.
pub proof fn lemma_winner_of(s: Seq<DetectionPolicy>, k: ScopeKeyView, r: Option<DetectionPolicy>)
    requires
        ids_ascending(s),
        match r {
            Some(p) => is_winner(s, k, p),
            None => forall|j: int| 0 <= j < s.len() ==> !matches_scope_spec(#[trigger] s[j], k),
        },
    ensures
        winner_of(s, k) == r,
{
    match r {
        Some(p) => {
            let q = choose|q: DetectionPolicy| is_winner(s, k, q);
            law_the_winner_is_unique(s, k, p, q);
        },
        None => {
            assert forall|p: DetectionPolicy| !is_winner(s, k, p) by {
                if is_winner(s, k, p) {
                    let j = choose|j: int| 0 <= j < s.len() && s[j] == p;
                    assert(matches_scope_spec(s[j], k));
                }
            }
        },
    }
}

} // verus!
