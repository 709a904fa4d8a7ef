//! What the metrics endpoint makes of a request: only the path of its
//! request line matters, and only `/metrics` is served.

use vstd::prelude::*;

verus! {

use crate::text::{char_is_space, chars_of, is_space};

/// The whitespace-separated words of `s`, the word in progress being
/// `cur`, as `str::split_whitespace` yields them.
pub open spec fn words_from(s: Seq<char>, cur: Seq<char>) -> Seq<Seq<char>>
    decreases s.len(),
{
    let done = if cur.len() == 0 { Seq::empty() } else { seq![cur] };
    if s.len() == 0 {
        done
    } else if is_space(s[0]) {
        done + words_from(s.drop_first(), Seq::empty())
    } else {
        words_from(s.drop_first(), cur.push(s[0]))
    }
}

/// The whitespace-separated words of `s`.
pub open spec fn words(s: Seq<char>) -> Seq<Seq<char>> {
    words_from(s, Seq::empty())
}

/// Whether a request asks for the metrics: its second word, the path of
/// the request line, is `/metrics`.
pub open spec fn asks_for_metrics(request: Seq<char>) -> bool {
    words(request).len() > 1 && words(request)[1] == "/metrics"@
}

/// Whether `request` asks for the metrics.
pub fn is_metrics_request(request: &str) -> (r: bool)
    ensures
        r == asks_for_metrics(request@),
{
    let v = chars_of(request);
    let mut seen: Vec<Vec<char>> = Vec::new();
    let mut cur: Vec<char> = Vec::new();
    let ghost found: Seq<Seq<char>> = Seq::empty();
    let mut i: usize = 0;
    proof {
        assert(v@.subrange(0, v@.len() as int) =~= v@);
        assert(cur@ =~= Seq::<char>::empty());
    }
    while i < v.len()
        invariant
            i <= v@.len(),
            v@ == request@,
            found + words_from(v@.subrange(i as int, v@.len() as int), cur@) == words(request@),
            seen@.len() == found.len(),
            forall|j: int| 0 <= j < found.len() ==> #[trigger] seen@[j]@ == found[j],
        decreases v@.len() - i,
    {
        let ghost rest = v@.subrange(i as int, v@.len() as int);
        proof {
            assert(rest.drop_first() =~= v@.subrange(i + 1, v@.len() as int));
            assert(rest[0] == v@[i as int]);
        }
        if char_is_space(v[i]) {
            if cur.len() > 0 {
                let ghost w = cur@;
                seen.push(cur);
                cur = Vec::new();
                proof {
                    assert(found + (seq![w] + words_from(rest.drop_first(), Seq::empty())) =~= found.push(w)
                        + words_from(rest.drop_first(), Seq::empty()));
                    found = found.push(w);
                }
            } else {
                proof {
                    assert(Seq::<Seq<char>>::empty() + words_from(rest.drop_first(), Seq::empty()) =~= words_from(
                        rest.drop_first(),
                        Seq::empty(),
                    ));
                }
            }
            proof {
                assert(cur@ =~= Seq::<char>::empty());
            }
        } else {
            cur.push(v[i]);
        }
        i = i + 1;
    }
    if cur.len() > 0 {
        let ghost w = cur@;
        seen.push(cur);
        proof {
            found = found.push(w);
        }
    }
    proof {
        assert(v@.subrange(i as int, v@.len() as int).len() == 0);
        assert(found =~= words(request@));
        reveal_strlit("/metrics");
    }
    if seen.len() > 1 {
        let path = &seen[1];
        let target = chars_of("/metrics");
        let mut same = path.len() == target.len();
        let mut k: usize = 0;
        while same && k < path.len()
            invariant
                same ==> path@.len() == target@.len(),
                k <= path@.len(),
                same == (path@.len() == target@.len() && forall|j: int| 0 <= j < k ==> path@[j] == target@[j]),
            decreases path@.len() - k,
        {
            if path[k] != target[k] {
                same = false;
            }
            k = k + 1;
        }
        proof {
            if same {
                assert(path@ =~= target@);
            } else if path@.len() == target@.len() {
                assert(path@ != target@) by {
                    let j = choose|j: int| 0 <= j < k && path@[j] != target@[j];
                    assert(path@[j] != target@[j]);
                }
            }
        }
        same
    } else {
        false
    }
}

} // verus!
