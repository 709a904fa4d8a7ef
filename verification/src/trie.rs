//! A binary trie, one bit per level, for deterministic longest-prefix
//! lookups.
//!
//! Address bits are a `u128` whatever the family: IPv4 addresses occupy
//! the low 32 bits, IPv6 the full 128, and a trie is made for one width.
//! A prefix is the sequence of its top bits, most significant first; the
//! trie is modelled as the map from those sequences to their entries.

use vstd::prelude::*;

verus! {

/// One prefix already registered above or below the one being inserted.
#[derive(Debug, Clone, Copy, PartialEq, Eq, Structural)]
pub struct OverlapKind {
    /// `true`: the existing prefix is broader (an ancestor); `false`:
    /// narrower (a descendant).
    pub broader: bool,
    pub existing_prefix_len: u8,
}

/// The overlaps an insertion found: broader prefixes first, shortest
/// first, then narrower ones in trie order.
#[derive(Debug, Clone, PartialEq, Eq)]
pub struct InsertOutcome {
    pub overlaps: Vec<OverlapKind>,
}

#[derive(Debug, Clone, Copy, PartialEq, Eq, Structural)]
pub enum TrieError {
    /// The prefix length exceeds the trie's width (length, width).
    PrefixTooLong(u8, u8),
    /// An entry for this exact prefix already exists.
    DuplicatePrefix,
}

/// The bit of `addr` at `depth`, counting from the most significant of
/// the low `max_bits` bits.
pub open spec fn bit_spec(addr: u128, depth: int, max_bits: int) -> bool {
    (addr >> ((max_bits - 1 - depth) as u8)) & 1u128 == 1u128
}

/// The first `len` bits of `addr` in a trie of width `max_bits`.
pub open spec fn addr_path(addr: u128, max_bits: u8, len: int) -> Seq<bool> {
    Seq::new(len as nat, |i: int| bit_spec(addr, i, max_bits as int))
}

/// `a` comes before `b` in trie order: a proper prefix comes before its
/// extensions, and otherwise the first differing bit decides, 0 first.
pub open spec fn path_before(a: Seq<bool>, b: Seq<bool>) -> bool
    decreases a.len(),
{
    if a.len() == 0 {
        b.len() > 0
    } else if b.len() == 0 {
        false
    } else if a[0] != b[0] {
        !a[0] && b[0]
    } else {
        path_before(a.drop_first(), b.drop_first())
    }
}

/// Strictly ascending in trie order.
pub open spec fn paths_ascending(s: Seq<Seq<bool>>) -> bool {
    forall|i: int, j: int| 0 <= i < j < s.len() ==> path_before(#[trigger] s[i], #[trigger] s[j])
}

/// The broader prefixes of `addr`'s first `len` bits registered in `m`,
/// shortest first.
pub open spec fn ancestor_overlaps<T>(m: Map<Seq<bool>, T>, addr: u128, max_bits: u8, len: int) -> Seq<OverlapKind>
    decreases len,
{
    if len <= 0 {
        Seq::empty()
    } else if m.dom().contains(addr_path(addr, max_bits, len - 1)) {
        ancestor_overlaps(m, addr, max_bits, len - 1).push(OverlapKind { broader: true, existing_prefix_len: (len - 1) as u8 })
    } else {
        ancestor_overlaps(m, addr, max_bits, len - 1)
    }
}

/// The overlap records of narrower prefixes at the given relative paths
/// below a prefix of length `depth`.
pub open spec fn narrower_overlaps(qs: Seq<Seq<bool>>, depth: int) -> Seq<OverlapKind> {
    qs.map_values(|x: Seq<bool>| OverlapKind { broader: false, existing_prefix_len: (depth + x.len()) as u8 })
}

#[derive(Debug)]
struct Node<T> {
    entry: Option<T>,
    zero: Option<Box<Node<T>>>,
    one: Option<Box<Node<T>>>,
}

impl<T> Node<T> {
    fn new() -> (r: Node<T>)
        ensures
            r.entry is None,
            r.zero is None,
            r.one is None,
    {
        Node { entry: None, zero: None, one: None }
    }

    spec fn child(self, b: bool) -> Option<Box<Node<T>>> {
        if b { self.one } else { self.zero }
    }

    /// The node reached by following `p` from this one.
    spec fn follow(self, p: Seq<bool>) -> Option<Node<T>>
        decreases p.len(),
    {
        if p.len() == 0 {
            Some(self)
        } else {
            match self.child(p[0]) {
                Some(c) => (*c).follow(p.drop_first()),
                None => None,
            }
        }
    }

    spec fn has(self, p: Seq<bool>) -> bool {
        self.follow(p) matches Some(n) && n.entry is Some
    }

    spec fn at(self, p: Seq<bool>) -> T {
        self.follow(p)->0.entry->0
    }

    /// Whether some prefix is registered at or below this node.
    spec fn alive(self) -> bool {
        exists|q: Seq<bool>| #[trigger] self.has(q)
    }

    /// No branch below this node leads nowhere: every child holds some
    /// registered prefix, and so on down.
    spec fn pruned(self) -> bool
        decreases self,
    {
        &&& (match self.zero {
            Some(c) => (*c).alive() && (*c).pruned(),
            None => true,
        })
        &&& (match self.one {
            Some(c) => (*c).alive() && (*c).pruned(),
            None => true,
        })
    }

    /// No node lies deeper than `n` levels below this one.
    spec fn within(self, n: int) -> bool
        decreases self,
    {
        &&& (match self.zero {
            Some(c) => n > 0 && (*c).within(n - 1),
            None => true,
        })
        &&& (match self.one {
            Some(c) => n > 0 && (*c).within(n - 1),
            None => true,
        })
    }
}

proof fn lemma_follow_prepend<T>(node: Node<T>, b: bool, y: Seq<bool>)
    ensures
        node.follow(seq![b] + y) == (match node.child(b) {
            Some(c) => (*c).follow(y),
            None => None,
        }),
{
    assert((seq![b] + y).drop_first() =~= y);
}

proof fn lemma_follow_concat<T>(node: Node<T>, p: Seq<bool>, x: Seq<bool>)
    ensures
        node.follow(p + x) == (match node.follow(p) {
            Some(n) => n.follow(x),
            None => None,
        }),
    decreases p.len(),
{
    if p.len() > 0 {
        assert((p + x).drop_first() =~= p.drop_first() + x);
        assert((p + x)[0] == p[0]);
        match node.child(p[0]) {
            Some(c) => lemma_follow_concat(*c, p.drop_first(), x),
            None => {},
        }
    } else {
        assert(p + x =~= x);
    }
}

proof fn lemma_path_push(addr: u128, max_bits: u8, len: int)
    requires
        0 <= len,
    ensures
        addr_path(addr, max_bits, len + 1) == addr_path(addr, max_bits, len).push(bit_spec(addr, len, max_bits as int)),
{
    assert(addr_path(addr, max_bits, len + 1) =~= addr_path(addr, max_bits, len).push(bit_spec(addr, len, max_bits as int)));
}

proof fn lemma_follow_push<T>(node: Node<T>, p: Seq<bool>, b: bool)
    ensures
        node.follow(p.push(b)) == (match node.follow(p) {
            Some(n) => match n.child(b) {
                Some(c) => Some(*c),
                None => None,
            },
            None => None,
        }),
{
    assert(p.push(b) =~= p + seq![b]);
    lemma_follow_concat(node, p, seq![b]);
    match node.follow(p) {
        Some(n) => {
            assert(seq![b].drop_first() =~= Seq::<bool>::empty());
            assert(seq![b][0] == b);
            match n.child(b) {
                Some(c) => {
                    assert((*c).follow(Seq::<bool>::empty()) == Some(*c));
                },
                None => {},
            }
        },
        None => {},
    }
}

/// Past a missing node, no longer path along `addr` exists.
proof fn lemma_follow_gone<T>(node: Node<T>, addr: u128, max_bits: u8, d: int, k: int)
    requires
        0 <= d <= k,
        node.follow(addr_path(addr, max_bits, d)) is None,
    ensures
        node.follow(addr_path(addr, max_bits, k)) is None,
    decreases k - d,
{
    if k > d {
        lemma_follow_gone(node, addr, max_bits, d, k - 1);
        lemma_path_push(addr, max_bits, k - 1);
        lemma_follow_push(node, addr_path(addr, max_bits, k - 1), bit_spec(addr, k - 1, max_bits as int));
    }
}

fn bit_at(addr_bits: u128, depth: u8, max_bits: u8) -> (r: bool)
    requires
        depth < max_bits <= 128,
    ensures
        r == bit_spec(addr_bits, depth as int, max_bits as int),
{
    let shift: u8 = max_bits - 1 - depth;
    (addr_bits >> shift) & 1u128 == 1u128
}

/// A longest-prefix-match trie over addresses `max_bits` wide.
#[derive(Debug)]
pub struct PrefixTrie<T> {
    max_bits: u8,
    root: Node<T>,
}

/// A [`PrefixTrie`] as values: its width and its prefixes with their
/// entries.
pub struct TrieView<T> {
    pub max_bits: u8,
    pub prefixes: Map<Seq<bool>, T>,
}

impl<T> View for PrefixTrie<T> {
    type V = TrieView<T>;

    closed spec fn view(&self) -> TrieView<T> {
        TrieView {
            max_bits: self.max_bits,
            prefixes: Map::new(|p: Seq<bool>| self.root.has(p), |p: Seq<bool>| self.root.at(p)),
        }
    }
}

fn insert_path<T>(node: &mut Node<T>, addr: u128, max_bits: u8, depth: u8, len: u8, entry: T)
    requires
        depth <= len <= max_bits <= 128,
        old(node).within(max_bits - depth),
    ensures
        ({
            let rest = addr_path(addr, max_bits, len as int).subrange(depth as int, len as int);
            &&& final(node).within(max_bits - depth)
            &&& forall|q: Seq<bool>| #[trigger] final(node).has(q) <==> (old(node).has(q) || q == rest)
            &&& forall|q: Seq<bool>| q != rest && old(node).has(q) ==> #[trigger] final(node).at(q) == old(node).at(q)
            &&& final(node).at(rest) == entry
            &&& old(node).pruned() ==> final(node).pruned()
        }),
    decreases len - depth,
{
    let ghost rest = addr_path(addr, max_bits, len as int).subrange(depth as int, len as int);
    if depth == len {
        node.entry = Some(entry);
        proof {
            assert(rest =~= Seq::<bool>::empty());
            assert forall|q: Seq<bool>| #[trigger] node.has(q) <==> (old(node).has(q) || q == rest) by {
                if q.len() > 0 {
                    let y = q.drop_first();
                    assert(q =~= seq![q[0]] + y);
                    lemma_follow_prepend(*node, q[0], y);
                    lemma_follow_prepend(*old(node), q[0], y);
                } else {
                    assert(q =~= rest);
                }
            }
            assert forall|q: Seq<bool>| q != rest && old(node).has(q) implies #[trigger] node.at(q) == old(node).at(q) by {
                if q.len() == 0 {
                    assert(q =~= rest);
                }
                let y = q.drop_first();
                assert(q =~= seq![q[0]] + y);
                lemma_follow_prepend(*node, q[0], y);
                lemma_follow_prepend(*old(node), q[0], y);
            }
        }
        return;
    }
    let bit = bit_at(addr, depth, max_bits);
    let ghost sub = addr_path(addr, max_bits, len as int).subrange(depth + 1, len as int);
    proof {
        assert(rest =~= seq![bit] + sub);
    }
    if bit {
        let mut child = match node.one.take() {
            Some(c) => c,
            None => Box::new(Node::new()),
        };
        let ghost before = *child;
        proof {
            assert(before.within(max_bits - depth - 1));
        }
        proof {
            if old(node).pruned() {
                assert(before.pruned());
            }
        }
        insert_path(&mut *child, addr, max_bits, depth + 1, len, entry);
        node.one = Some(child);
        proof {
            lemma_node_after_child(*old(node), *node, true, before, *child, sub);
            assert(child.has(sub));
            assert((*child).alive());
        }
    } else {
        let mut child = match node.zero.take() {
            Some(c) => c,
            None => Box::new(Node::new()),
        };
        let ghost before = *child;
        proof {
            assert(before.within(max_bits - depth - 1));
        }
        proof {
            if old(node).pruned() {
                assert(before.pruned());
            }
        }
        insert_path(&mut *child, addr, max_bits, depth + 1, len, entry);
        node.zero = Some(child);
        proof {
            lemma_node_after_child(*old(node), *node, false, before, *child, sub);
            assert(child.has(sub));
            assert((*child).alive());
        }
    }
}

/// Replacing child `b` (absent, or `before`) by `after` changes the
/// node's prefixes below `b` exactly as the child's changed.
proof fn lemma_node_after_child<T>(old_n: Node<T>, new_n: Node<T>, b: bool, before: Node<T>, after: Node<T>, sub: Seq<bool>)
    requires
        new_n.entry == old_n.entry,
        new_n.child(!b) == old_n.child(!b),
        new_n.child(b) == Some(Box::new(after)),
        old_n.child(b) matches Some(c) ==> *c == before,
        old_n.child(b) is None ==> before.entry is None && before.zero is None && before.one is None,
        forall|q: Seq<bool>| #[trigger] after.has(q) <==> (before.has(q) || q == sub),
        forall|q: Seq<bool>| q != sub && before.has(q) ==> #[trigger] after.at(q) == before.at(q),
        after.at(sub) == before.at(sub) || true,
    ensures
        forall|q: Seq<bool>| #[trigger] new_n.has(q) <==> (old_n.has(q) || q == seq![b] + sub),
        forall|q: Seq<bool>| q != seq![b] + sub && old_n.has(q) ==> #[trigger] new_n.at(q) == old_n.at(q),
        new_n.at(seq![b] + sub) == after.at(sub),
{
    lemma_follow_prepend(new_n, b, sub);
    assert(new_n.has(seq![b] + sub) <==> after.has(sub));
    assert forall|q: Seq<bool>| #[trigger] new_n.has(q) <==> (old_n.has(q) || q == seq![b] + sub) by {
        if q.len() > 0 {
            let y = q.drop_first();
            assert(q =~= seq![q[0]] + y);
            lemma_follow_prepend(new_n, q[0], y);
            lemma_follow_prepend(old_n, q[0], y);
            if q[0] == b {
                assert(after.has(y) <==> (before.has(y) || y == sub));
                if old_n.child(b) is None {
                    lemma_empty_node_has(before, y);
                }
                if y == sub {
                    assert(q == seq![b] + sub);
                } else {
                    assert((seq![b] + sub).drop_first() =~= sub);
                    assert(q != seq![b] + sub);
                }
            } else {
                assert((seq![b] + sub)[0] == b);
            }
        } else {
            assert((seq![b] + sub).len() > 0);
        }
    }
    assert forall|q: Seq<bool>| q != seq![b] + sub && old_n.has(q) implies #[trigger] new_n.at(q) == old_n.at(q) by {
        if q.len() > 0 {
            let y = q.drop_first();
            assert(q =~= seq![q[0]] + y);
            lemma_follow_prepend(new_n, q[0], y);
            lemma_follow_prepend(old_n, q[0], y);
            if q[0] == b {
                if y == sub {
                    assert(q =~= seq![b] + sub);
                }
                if old_n.child(b) is None {
                    lemma_empty_node_has(before, y);
                }
                assert(before.has(y));
                assert(after.at(y) == before.at(y));
            }
        }
    }
}

proof fn lemma_empty_node_has<T>(n: Node<T>, y: Seq<bool>)
    requires
        n.entry is None,
        n.zero is None,
        n.one is None,
    ensures
        !n.has(y),
{
}

/// Collects the narrower prefixes registered below `node`, which sits
/// at `depth`, in trie order.
fn collect_below<T>(node: &Node<T>, depth: u8, max_bits: u8, overlaps: &mut Vec<OverlapKind>) -> (qs: Ghost<Seq<Seq<bool>>>)
    requires
        depth <= max_bits <= 128,
        node.within(max_bits - depth),
    ensures
        final(overlaps)@ == old(overlaps)@ + narrower_overlaps(qs@, depth as int),
        forall|x: Seq<bool>| #[trigger] qs@.contains(x) <==> (x.len() > 0 && node.has(x)),
        paths_ascending(qs@),
        forall|i: int| 0 <= i < qs@.len() ==> (#[trigger] qs@[i]).len() <= max_bits - depth,
    decreases node,
{
    let ghost mut acc: Seq<Seq<bool>> = Seq::empty();
    let ghost mut zs: Seq<Seq<bool>> = Seq::empty();
    let ghost mut os: Seq<Seq<bool>> = Seq::empty();
    proof {
        assert(node.within(max_bits - depth));
    }
    match &node.zero {
        Some(child) => {
            let cd: u8 = depth + 1;
            if child.entry.is_some() {
                overlaps.push(OverlapKind { broader: false, existing_prefix_len: cd });
            }
            let sub = collect_below(&**child, cd, max_bits, overlaps);
            proof {
                assert(cd <= max_bits);
                zs = side_paths(false, (**child).entry is Some, sub@);
                lemma_side_paths(**child, false, sub@, max_bits - cd);
            }
        },
        None => {},
    }
    proof {
        assert forall|x: Seq<bool>| #[trigger] zs.contains(x) <==> (x.len() > 0 && x[0] == false && node.has(x)) by {
            if x.len() > 0 && x[0] == false {
                let y = x.drop_first();
                assert(x =~= seq![false] + y);
                lemma_follow_prepend(*node, false, y);
            }
        }
    }
    match &node.one {
        Some(child) => {
            let cd: u8 = depth + 1;
            if child.entry.is_some() {
                overlaps.push(OverlapKind { broader: false, existing_prefix_len: cd });
            }
            let sub = collect_below(&**child, cd, max_bits, overlaps);
            proof {
                assert(cd <= max_bits);
                os = side_paths(true, (**child).entry is Some, sub@);
                lemma_side_paths(**child, true, sub@, max_bits - cd);
            }
        },
        None => {},
    }
    proof {
        assert forall|x: Seq<bool>| #[trigger] os.contains(x) <==> (x.len() > 0 && x[0] == true && node.has(x)) by {
            if x.len() > 0 && x[0] == true {
                let y = x.drop_first();
                assert(x =~= seq![true] + y);
                lemma_follow_prepend(*node, true, y);
            }
        }
        lemma_join_sides(*node, zs, os);
        acc = zs + os;
    }
    Ghost(acc)
}

/// The paths below one child `b`: the child itself when it holds an
/// entry, then its own paths behind `b`.
spec fn side_paths(b: bool, here: bool, sub: Seq<Seq<bool>>) -> Seq<Seq<bool>> {
    let own: Seq<Seq<bool>> = if here { seq![seq![b]] } else { Seq::empty() };
    own + sub.map_values(|x: Seq<bool>| seq![b] + x)
}

proof fn lemma_side_paths<T>(child: Node<T>, b: bool, sub: Seq<Seq<bool>>, n: int)
    requires
        forall|x: Seq<bool>| #[trigger] sub.contains(x) <==> (x.len() > 0 && child.has(x)),
        paths_ascending(sub),
        forall|i: int| 0 <= i < sub.len() ==> (#[trigger] sub[i]).len() <= n,
        n >= 0,
    ensures
        ({
            let sp = side_paths(b, child.entry is Some, sub);
            &&& forall|x: Seq<bool>| #[trigger] sp.contains(x) <==> (x.len() > 0 && x[0] == b && child.has(x.drop_first()))
            &&& paths_ascending(sp)
            &&& forall|i: int| 0 <= i < sp.len() ==> (#[trigger] sp[i]).len() > 0 && sp[i][0] == b && sp[i].len() <= n + 1
        }),
{
    let here = child.entry is Some;
    let own: Seq<Seq<bool>> = if here { seq![seq![b]] } else { Seq::empty() };
    let mapped = sub.map_values(|x: Seq<bool>| seq![b] + x);
    let sp = side_paths(b, here, sub);
    assert(sp == own + mapped);
    assert(child.follow(Seq::<bool>::empty()) == Some(child));
    assert forall|i: int| 0 <= i < sp.len() implies (#[trigger] sp[i]).len() > 0 && sp[i][0] == b && sp[i].len() <= n + 1 by {
        if i >= own.len() {
            let y = sub[i - own.len()];
            assert(0 <= i - own.len() < sub.len());
            assert(mapped[i - own.len()] == seq![b] + y);
            assert(sp[i] == mapped[i - own.len()]);
            assert(sp[i] == seq![b] + y);
            assert((seq![b] + y)[0] == b);
            assert(y.len() <= n);
            assert(sp[i].len() == y.len() + 1);
        } else {
            assert(sp[i] == own[i]);
            assert(own[i] == seq![b]);
        }
    }
    assert forall|x: Seq<bool>| #[trigger] sp.contains(x) <==> (x.len() > 0 && x[0] == b && child.has(x.drop_first())) by {
        if sp.contains(x) {
            let i = choose|i: int| 0 <= i < sp.len() && #[trigger] sp[i] == x;
            if i < own.len() {
                assert(x == seq![b]);
                assert(x.drop_first() =~= Seq::<bool>::empty());
            } else {
                let y = sub[i - own.len()];
                assert(x == seq![b] + y);
                assert(x.drop_first() =~= y);
                assert(sub.contains(y));
            }
        }
        if x.len() > 0 && x[0] == b && child.has(x.drop_first()) {
            let y = x.drop_first();
            assert(x =~= seq![b] + y);
            if y.len() == 0 {
                assert(y =~= Seq::<bool>::empty());
                assert(x =~= seq![b]);
                assert(sp[0] == x);
            } else {
                assert(sub.contains(y));
                let j = choose|j: int| 0 <= j < sub.len() && #[trigger] sub[j] == y;
                assert(sp[own.len() + j] == x);
            }
        }
    }
    assert forall|i: int, j: int| 0 <= i < j < sp.len() implies path_before(#[trigger] sp[i], #[trigger] sp[j]) by {
        let yj = sub[j - own.len()];
        assert(sp[j] == mapped[j - own.len()]);
        assert(sp[j] == seq![b] + yj);
        assert((seq![b] + yj)[0] == b);
        assert((seq![b] + yj).drop_first() =~= yj);
        assert(sub.contains(yj));
        if i < own.len() {
            assert(sp[i] == own[i]);
            assert(sp[i] == seq![b]);
            assert(seq![b][0] == b);
            assert(seq![b].drop_first() =~= Seq::<bool>::empty());
            assert(yj.len() > 0);
            assert(path_before(Seq::<bool>::empty(), yj));
            assert(path_before(seq![b], seq![b] + yj) == path_before(seq![b].drop_first(), (seq![b] + yj).drop_first()));
        } else {
            let yi = sub[i - own.len()];
            assert(sp[i] == mapped[i - own.len()]);
            assert(sp[i] == seq![b] + yi);
            assert((seq![b] + yi)[0] == b);
            assert((seq![b] + yi).drop_first() =~= yi);
            assert(path_before(yi, yj));
        }
    }
}

proof fn lemma_join_sides<T>(node: Node<T>, a: Seq<Seq<bool>>, c: Seq<Seq<bool>>)
    requires
        forall|x: Seq<bool>| #[trigger] a.contains(x) <==> (x.len() > 0 && x[0] == false && node.has(x)),
        forall|x: Seq<bool>| #[trigger] c.contains(x) <==> (x.len() > 0 && x[0] == true && node.has(x)),
        paths_ascending(a),
        paths_ascending(c),
        forall|i: int| 0 <= i < a.len() ==> (#[trigger] a[i]).len() > 0 && a[i][0] == false,
        forall|i: int| 0 <= i < c.len() ==> (#[trigger] c[i]).len() > 0 && c[i][0] == true,
    ensures
        forall|x: Seq<bool>| #[trigger] (a + c).contains(x) <==> (x.len() > 0 && node.has(x)),
        paths_ascending(a + c),
{
    let ac = a + c;
    assert forall|x: Seq<bool>| #[trigger] ac.contains(x) <==> (x.len() > 0 && node.has(x)) by {
        if ac.contains(x) {
            let i = choose|i: int| 0 <= i < ac.len() && #[trigger] ac[i] == x;
            if i < a.len() {
                assert(a[i] == x);
                assert(a.contains(x));
            } else {
                assert(c[i - a.len()] == x);
                assert(c.contains(x));
            }
        }
        if x.len() > 0 && node.has(x) {
            if x[0] {
                assert(c.contains(x));
                let j = choose|j: int| 0 <= j < c.len() && #[trigger] c[j] == x;
                assert(ac[a.len() + j] == x);
            } else {
                assert(a.contains(x));
                let j = choose|j: int| 0 <= j < a.len() && #[trigger] a[j] == x;
                assert(ac[j] == x);
            }
        }
    }
    assert forall|i: int, j: int| 0 <= i < j < ac.len() implies path_before(#[trigger] ac[i], #[trigger] ac[j]) by {
        if j < a.len() {
            assert(ac[i] == a[i] && ac[j] == a[j]);
        } else if i >= a.len() {
            assert(ac[i] == c[i - a.len()] && ac[j] == c[j - a.len()]);
        } else {
            assert(ac[i] == a[i] && ac[j] == c[j - a.len()]);
        }
    }
}

proof fn lemma_ancestors_skip<T>(m: Map<Seq<bool>, T>, addr: u128, max_bits: u8, a: int, b: int)
    requires
        0 <= a <= b,
        forall|k: int| a <= k < b ==> !m.dom().contains(#[trigger] addr_path(addr, max_bits, k)),
    ensures
        ancestor_overlaps(m, addr, max_bits, b) == ancestor_overlaps(m, addr, max_bits, a),
    decreases b - a,
{
    if b > a {
        lemma_ancestors_skip(m, addr, max_bits, a, b - 1);
        assert(!m.dom().contains(addr_path(addr, max_bits, b - 1)));
    }
}

proof fn lemma_follow_within<T>(node: Node<T>, p: Seq<bool>, m: int)
    requires
        node.within(m),
        node.follow(p) is Some,
    ensures
        node.follow(p)->0.within(m - p.len()),
    decreases p.len(),
{
    if p.len() > 0 {
        match node.child(p[0]) {
            Some(c) => lemma_follow_within(*c, p.drop_first(), m - 1),
            None => {},
        }
    }
}

fn descend<'a, T>(root: &'a Node<T>, addr: u128, max_bits: u8, len: u8) -> (r: &'a Node<T>)
    requires
        len <= max_bits <= 128,
        root.follow(addr_path(addr, max_bits, len as int)) is Some,
    ensures
        root.follow(addr_path(addr, max_bits, len as int)) == Some(*r),
{
    let mut node: &Node<T> = root;
    let mut depth: u8 = 0;
    proof {
        assert(addr_path(addr, max_bits, 0) =~= Seq::<bool>::empty());
    }
    while depth < len
        invariant
            depth <= len <= max_bits <= 128,
            root.follow(addr_path(addr, max_bits, len as int)) is Some,
            root.follow(addr_path(addr, max_bits, depth as int)) == Some(*node),
        decreases len - depth,
    {
        let bit = bit_at(addr, depth, max_bits);
        proof {
            lemma_path_push(addr, max_bits, depth as int);
            lemma_follow_push(*root, addr_path(addr, max_bits, depth as int), bit);
            if root.follow(addr_path(addr, max_bits, depth + 1)) is None {
                lemma_follow_gone(*root, addr, max_bits, depth + 1, len as int);
            }
        }
        let next = if bit { &node.one } else { &node.zero };
        match next {
            Some(child) => {
                node = &**child;
            },
            None => {
                proof {
                    assert(false);
                }
            },
        }
        depth = depth + 1;
    }
    node
}

impl<T> PrefixTrie<T> {
    #[verifier::type_invariant]
    spec fn wf(self) -> bool {
        &&& self.max_bits <= 128
        &&& self.root.within(self.max_bits as int)
        &&& self.root.pruned()
    }

    /// An empty trie over addresses `max_bits` wide.
    pub fn new(max_bits: u8) -> (r: PrefixTrie<T>)
        requires
            max_bits <= 128,
        ensures
            r@.max_bits == max_bits,
            r@.prefixes == Map::<Seq<bool>, T>::empty(),
    {
        let r = PrefixTrie { max_bits, root: Node::new() };
        proof {
            assert forall|p: Seq<bool>| !r.root.has(p) by {
                lemma_empty_node_has(r.root, p);
            }
            assert(r@.prefixes =~= Map::<Seq<bool>, T>::empty());
        }
        r
    }

    /// Longest-prefix match: the entry of the longest registered prefix
    /// of `addr_bits`, with that prefix's length, or `None` when no
    /// registered prefix covers it.
    pub fn lookup(&self, addr_bits: u128) -> (r: Option<(&T, u8)>)
        ensures
            match r {
                Some((e, l)) => l <= self@.max_bits
                    && self@.prefixes.dom().contains(addr_path(addr_bits, self@.max_bits, l as int))
                    && *e == self@.prefixes[addr_path(addr_bits, self@.max_bits, l as int)]
                    && forall|k: int| l < k <= self@.max_bits ==> !self@.prefixes.dom().contains(#[trigger] addr_path(addr_bits, self@.max_bits, k)),
                None => forall|k: int| 0 <= k <= self@.max_bits ==> !self@.prefixes.dom().contains(#[trigger] addr_path(addr_bits, self@.max_bits, k)),
            },
    {
        proof {
            use_type_invariant(self);
        }
        let ghost root = self.root;
        let max_bits = self.max_bits;
        let mut node: &Node<T> = &self.root;
        let mut best: Option<(&T, u8)> = match &node.entry {
            Some(e) => Some((e, 0u8)),
            None => None,
        };
        proof {
            assert(addr_path(addr_bits, max_bits, 0) =~= Seq::<bool>::empty());
        }
        let mut depth: u8 = 0;
        let mut gone = false;
        while depth < max_bits && !gone
            invariant
                depth <= max_bits <= 128,
                root == self.root,
                max_bits == self.max_bits,
                !gone ==> root.follow(addr_path(addr_bits, max_bits, depth as int)) == Some(*node),
                gone ==> root.follow(addr_path(addr_bits, max_bits, depth as int + 1)) is None && depth < max_bits,
                match best {
                    Some((e, l)) => l <= depth && root.has(addr_path(addr_bits, max_bits, l as int))
                        && *e == root.at(addr_path(addr_bits, max_bits, l as int))
                        && forall|k: int| l < k <= depth ==> !root.has(#[trigger] addr_path(addr_bits, max_bits, k)),
                    None => forall|k: int| 0 <= k <= depth ==> !root.has(#[trigger] addr_path(addr_bits, max_bits, k)),
                },
            decreases (max_bits - depth) as int * 2 + if gone { 0int } else { 1int },
        {
            let bit = bit_at(addr_bits, depth, max_bits);
            proof {
                lemma_path_push(addr_bits, max_bits, depth as int);
                lemma_follow_push(root, addr_path(addr_bits, max_bits, depth as int), bit);
            }
            let next = if bit { &node.one } else { &node.zero };
            match next {
                Some(child) => {
                    node = &**child;
                    match &node.entry {
                        Some(e) => {
                            best = Some((e, depth + 1));
                        },
                        None => {},
                    }
                    depth = depth + 1;
                },
                None => {
                    gone = true;
                },
            }
        }
        proof {
            if gone {
                assert forall|k: int| depth < k <= max_bits implies !root.has(#[trigger] addr_path(addr_bits, max_bits, k)) by {
                    lemma_follow_gone(root, addr_bits, max_bits, depth as int + 1, k);
                }
            }
        }
        best
    }

    /// Registers `entry` for the top `prefix_len` bits of `addr_bits`.
    ///
    /// Refuses a length beyond the trie's width and an exact duplicate,
    /// changing nothing; otherwise reports every registered prefix the
    /// new one overlaps: broader ones first, shortest first, then
    /// narrower ones in trie order. An overlap is never an error.
    pub fn insert(&mut self, addr_bits: u128, prefix_len: u8, entry: T) -> (r: Result<InsertOutcome, TrieError>)
        ensures
            final(self)@.max_bits == old(self)@.max_bits,
            ({
                let m = old(self)@.prefixes;
                let w = old(self)@.max_bits;
                let p = addr_path(addr_bits, w, prefix_len as int);
                if prefix_len > w {
                    r == Err::<InsertOutcome, TrieError>(TrieError::PrefixTooLong(prefix_len, w)) && final(self)@.prefixes == m
                } else if m.dom().contains(p) {
                    r == Err::<InsertOutcome, TrieError>(TrieError::DuplicatePrefix) && final(self)@.prefixes == m
                } else {
                    &&& final(self)@.prefixes == m.insert(p, entry)
                    &&& r matches Ok(o) && exists|qs: Seq<Seq<bool>>| {
                        &&& paths_ascending(qs)
                        &&& forall|x: Seq<bool>| #[trigger] qs.contains(x) <==> (x.len() > 0 && m.dom().contains(p + x))
                        &&& o.overlaps@ == ancestor_overlaps(m, addr_bits, w, prefix_len as int) + narrower_overlaps(qs, prefix_len as int)
                    }
                }
            }),
    {
        proof {
            use_type_invariant(&*self);
        }
        let ghost m = self@.prefixes;
        let ghost root0 = self.root;
        let max_bits = self.max_bits;
        if prefix_len > max_bits {
            return Err(TrieError::PrefixTooLong(prefix_len, max_bits));
        }
        let ghost p = addr_path(addr_bits, max_bits, prefix_len as int);
        let mut overlaps: Vec<OverlapKind> = Vec::new();
        let mut node: &Node<T> = &self.root;
        let mut depth: u8 = 0;
        let mut gone = false;
        proof {
            assert(addr_path(addr_bits, max_bits, 0) =~= Seq::<bool>::empty());
        }
        while depth < prefix_len && !gone
            invariant
                depth <= prefix_len <= max_bits <= 128,
                root0 == self.root,
                max_bits == self.max_bits,
                m == self@.prefixes,
                !gone ==> root0.follow(addr_path(addr_bits, max_bits, depth as int)) == Some(*node),
                !gone ==> overlaps@ == ancestor_overlaps(m, addr_bits, max_bits, depth as int),
                gone ==> root0.follow(addr_path(addr_bits, max_bits, depth as int + 1)) is None && depth < prefix_len,
                gone ==> overlaps@ == ancestor_overlaps(m, addr_bits, max_bits, depth as int + 1),
            decreases (prefix_len - depth) as int * 2 + if gone { 0int } else { 1int },
        {
            let ghost before = overlaps@;
            if node.entry.is_some() {
                overlaps.push(OverlapKind { broader: true, existing_prefix_len: depth });
            }
            proof {
                assert(m.dom().contains(addr_path(addr_bits, max_bits, depth as int)) == root0.has(addr_path(addr_bits, max_bits, depth as int)));
            }
            let bit = bit_at(addr_bits, depth, max_bits);
            proof {
                lemma_path_push(addr_bits, max_bits, depth as int);
                lemma_follow_push(root0, addr_path(addr_bits, max_bits, depth as int), bit);
            }
            let next = if bit { &node.one } else { &node.zero };
            match next {
                Some(child) => {
                    node = &**child;
                    depth = depth + 1;
                },
                None => {
                    gone = true;
                },
            }
        }
        proof {
            if gone {
                assert forall|k: int| depth + 1 <= k < prefix_len implies !m.dom().contains(#[trigger] addr_path(addr_bits, max_bits, k)) by {
                    lemma_follow_gone(root0, addr_bits, max_bits, depth + 1, k);
                }
                lemma_ancestors_skip(m, addr_bits, max_bits, depth + 1, prefix_len as int);
                lemma_follow_gone(root0, addr_bits, max_bits, depth + 1, prefix_len as int);
                assert(!m.dom().contains(p));
            } else {
                assert(depth == prefix_len);
            }
        }
        if !gone && node.entry.is_some() {
            proof {
                assert(m.dom().contains(p));
            }
            return Err(TrieError::DuplicatePrefix);
        }
        proof {
            assert(!m.dom().contains(p));
        }
        let mut root: Node<T> = Node::new();
        std::mem::swap(&mut root, &mut self.root);
        insert_path(&mut root, addr_bits, max_bits, 0, prefix_len, entry);
        self.root = root;
        let ghost root1 = self.root;
        proof {
            assert(addr_path(addr_bits, max_bits, prefix_len as int).subrange(0, prefix_len as int) =~= p);
            assert(root1.has(p));
        }
        let target = descend(&self.root, addr_bits, max_bits, prefix_len);
        proof {
            lemma_follow_within(root1, p, max_bits as int);
        }
        let qs = collect_below(target, prefix_len, max_bits, &mut overlaps);
        proof {
            assert(self@.prefixes =~= m.insert(p, entry));
            assert forall|x: Seq<bool>| #[trigger] qs@.contains(x) <==> (x.len() > 0 && m.dom().contains(p + x)) by {
                lemma_follow_concat(root1, p, x);
                assert(target.has(x) == root1.has(p + x));
                assert(root1.has(p + x) <==> (root0.has(p + x) || p + x == p));
                assert(m.dom().contains(p + x) == root0.has(p + x));
                if x.len() > 0 {
                    assert((p + x).len() > p.len());
                    assert(p + x != p);
                }
            }
        }
        Ok(InsertOutcome { overlaps })
    }

    /// Whether nothing was ever registered: no entry and no branch.
    pub fn is_empty(&self) -> (r: bool)
        ensures
            r <==> self@.prefixes == Map::<Seq<bool>, T>::empty(),
    {
        proof {
            use_type_invariant(self);
        }
        let r = self.root.entry.is_none() && self.root.zero.is_none() && self.root.one.is_none();
        proof {
            if !r {
                let e = Seq::<bool>::empty();
                if self.root.entry is Some {
                    assert(self.root.follow(e) == Some(self.root));
                    assert(self.root.has(e));
                    assert(self@.prefixes.dom().contains(e));
                } else {
                    let b = self.root.zero is None;
                    let c = self.root.child(b)->0;
                    assert((*c).alive());
                    let q = choose|q: Seq<bool>| #[trigger] (*c).has(q);
                    lemma_follow_prepend(self.root, b, q);
                    assert(self.root.has(seq![b] + q));
                    assert(self@.prefixes.dom().contains(seq![b] + q));
                }
            }
            if r {
                assert forall|p: Seq<bool>| !self.root.has(p) by {
                    lemma_empty_node_has(self.root, p);
                }
                assert(self@.prefixes =~= Map::<Seq<bool>, T>::empty());
            }
        }
        r
    }
}

/// Which prefixes a trie holds does not depend on the order they were
/// inserted in: two successful insertions of different prefixes, in
/// either order, give the same prefixes, so every lookup agrees.
pub proof fn law_insertion_order_does_not_matter<T>(m: Map<Seq<bool>, T>, p1: Seq<bool>, e1: T, p2: Seq<bool>, e2: T)
    requires
        p1 != p2,
    ensures
        m.insert(p1, e1).insert(p2, e2) == m.insert(p2, e2).insert(p1, e1),
{
    assert(m.insert(p1, e1).insert(p2, e2) =~= m.insert(p2, e2).insert(p1, e1));
}

} // verus!
