//! A bounded map with least-recently-updated eviction and independent
//! inactivity expiration, reused across every aggregation dimension.
//!
//! Keys are compared by their views; the map is modelled as a map from
//! key view to the value and the instant it was last updated. Instants
//! are nanoseconds.
//!
//! The entries are held in a `Vec` rather than a hash map. The map is
//! generic over its key: addresses, (address, length) pairs, protocols
//! and hostgroup names among them, and vstd gives a hash map's contents a
//! usable specification only for keys whose hashing and equality it
//! knows, which a tuple or a `String` key is not. Eviction needs a scan
//! for the least recently updated entry whatever the container. Among
//! entries updated at the same instant a hash map's walk decides which
//! one is evicted, and that order is seeded afresh in each process; the
//! scan here starts at a position drawn afresh for each map, so the
//! choice is likewise arbitrary, and every contract holds whichever tied
//! entry goes.

use vstd::prelude::*;

verus! {

use crate::flow::Protocol;
use crate::net::IpAddress;
use crate::seed::fresh_seed;
use crate::text::text_eq;

/// A key the map can hold: it can be compared with another key and
/// copied, both by its view.
pub trait MapKey: View + Sized {
    fn same_key(&self, other: &Self) -> (r: bool)
        ensures
            r == (self@ == other@);

    fn copy_key(&self) -> (r: Self)
        ensures
            r@ == self@;
}

impl MapKey for u8 {
    fn same_key(&self, other: &Self) -> (r: bool) {
        *self == *other
    }

    fn copy_key(&self) -> (r: Self) {
        *self
    }
}

impl MapKey for u32 {
    fn same_key(&self, other: &Self) -> (r: bool) {
        *self == *other
    }

    fn copy_key(&self) -> (r: Self) {
        *self
    }
}

impl MapKey for u64 {
    fn same_key(&self, other: &Self) -> (r: bool) {
        *self == *other
    }

    fn copy_key(&self) -> (r: Self) {
        *self
    }
}

impl MapKey for u128 {
    fn same_key(&self, other: &Self) -> (r: bool) {
        *self == *other
    }

    fn copy_key(&self) -> (r: Self) {
        *self
    }
}

impl View for Protocol {
    type V = Protocol;

    open spec fn view(&self) -> Protocol {
        *self
    }
}

impl MapKey for Protocol {
    fn same_key(&self, other: &Self) -> (r: bool) {
        *self == *other
    }

    fn copy_key(&self) -> (r: Self) {
        *self
    }
}

impl View for IpAddress {
    type V = IpAddress;

    open spec fn view(&self) -> IpAddress {
        *self
    }
}

impl MapKey for IpAddress {
    fn same_key(&self, other: &Self) -> (r: bool) {
        *self == *other
    }

    fn copy_key(&self) -> (r: Self) {
        *self
    }
}

impl MapKey for String {
    fn same_key(&self, other: &Self) -> (r: bool) {
        text_eq(self.as_str(), other.as_str())
    }

    fn copy_key(&self) -> (r: Self) {
        self.clone()
    }
}

impl<'a> MapKey for &'a str {
    fn same_key(&self, other: &Self) -> (r: bool) {
        text_eq(*self, *other)
    }

    fn copy_key(&self) -> (r: Self) {
        *self
    }
}

impl<A: MapKey, B: MapKey> MapKey for (A, B) {
    fn same_key(&self, other: &Self) -> (r: bool) {
        self.0.same_key(&other.0) && self.1.same_key(&other.1)
    }

    fn copy_key(&self) -> (r: Self) {
        (self.0.copy_key(), self.1.copy_key())
    }
}

#[derive(Debug, Clone, Copy, PartialEq, Eq, Structural)]
pub struct BoundedMapConfig {
    /// Hard cap on distinct keys tracked at once.
    pub max_entries: usize,
    /// An entry untouched for longer than this is expired by the next
    /// sweep, however full the map is.
    pub inactivity_ttl: u128,
}

/// What an upsert did.
#[derive(Debug, Clone, Copy, PartialEq, Eq, Structural)]
pub enum UpsertOutcome {
    Inserted,
    Updated,
    /// A new key was inserted by evicting the least-recently-updated
    /// entry to stay within `max_entries`.
    InsertedByEviction,
    /// `max_entries` is 0: the update was refused.
    Rejected,
}

struct Slot<K, V> {
    key: K,
    value: V,
    last_updated: u128,
}

/// A bounded map from keys to values.
pub struct BoundedMap<K: MapKey, V> {
    config: BoundedMapConfig,
    entries: Vec<Slot<K, V>>,
    /// Where the search for an eviction victim starts among entries
    /// updated at the same instant, drawn afresh for each map.
    tie_start: u64,
}

/// A [`BoundedMap`] as values: its bounds, and each key's value with the
/// instant it was last updated.
#[verifier::reject_recursive_types(KV)]
pub struct BoundedView<KV, V> {
    pub config: BoundedMapConfig,
    pub entries: Map<KV, (V, u128)>,
}

spec fn slot_keys<K: View, V>(s: Seq<Slot<K, V>>) -> Seq<K::V> {
    s.map_values(|e: Slot<K, V>| e.key@)
}

spec fn slot_map<K: View, V>(s: Seq<Slot<K, V>>) -> Map<K::V, (V, u128)> {
    Map::new(
        |k: K::V| slot_keys(s).contains(k),
        |k: K::V| (s[slot_keys(s).index_of(k)].value, s[slot_keys(s).index_of(k)].last_updated),
    )
}

proof fn lemma_slot_at<K: View, V>(s: Seq<Slot<K, V>>, i: int)
    requires
        slot_keys(s).no_duplicates(),
        0 <= i < s.len(),
    ensures
        slot_map(s).dom().contains(s[i].key@),
        slot_map(s)[s[i].key@] == (s[i].value, s[i].last_updated),
{
    let ks = slot_keys(s);
    assert(ks[i] == s[i].key@);
    assert(ks.contains(s[i].key@));
    let j = ks.index_of(s[i].key@);
    assert(ks[j] == s[i].key@);
}

proof fn lemma_slot_push<K: View, V>(s: Seq<Slot<K, V>>, e: Slot<K, V>)
    requires
        slot_keys(s).no_duplicates(),
        !slot_map(s).dom().contains(e.key@),
    ensures
        slot_keys(s.push(e)).no_duplicates(),
        slot_map(s.push(e)) == slot_map(s).insert(e.key@, (e.value, e.last_updated)),
{
    let s2 = s.push(e);
    assert(slot_keys(s2) =~= slot_keys(s).push(e.key@));
    assert forall|k: K::V| #[trigger] slot_map(s2).dom().contains(k) <==> slot_map(s).insert(e.key@, (e.value, e.last_updated)).dom().contains(k) by {
        if slot_keys(s).contains(k) {
            let j = slot_keys(s).index_of(k);
            assert(slot_keys(s2)[j] == k);
        }
        if slot_keys(s2).contains(k) && k != e.key@ {
            let j = slot_keys(s2).index_of(k);
            assert(j < s.len());
            assert(slot_keys(s)[j] == k);
        }
        assert(slot_keys(s2)[s.len() as int] == e.key@);
    }
    assert forall|k: K::V| #[trigger] slot_map(s2).dom().contains(k) implies slot_map(s2)[k] == slot_map(s).insert(e.key@, (e.value, e.last_updated))[k] by {
        let j = slot_keys(s2).index_of(k);
        assert(slot_keys(s2)[j] == k);
        if k == e.key@ {
            lemma_slot_at(s2, s.len() as int);
        } else {
            assert(j < s.len());
            lemma_slot_at(s2, j);
            lemma_slot_at(s, j);
        }
    }
    assert(slot_map(s2) =~= slot_map(s).insert(e.key@, (e.value, e.last_updated)));
}

proof fn lemma_slot_update<K: View, V>(s: Seq<Slot<K, V>>, i: int, e: Slot<K, V>)
    requires
        slot_keys(s).no_duplicates(),
        0 <= i < s.len(),
        s[i].key@ == e.key@,
    ensures
        slot_keys(s.update(i, e)).no_duplicates(),
        slot_map(s.update(i, e)) == slot_map(s).insert(e.key@, (e.value, e.last_updated)),
{
    let s2 = s.update(i, e);
    assert(slot_keys(s2) =~= slot_keys(s));
    lemma_slot_at(s, i);
    assert forall|k: K::V| #[trigger] slot_map(s2).dom().contains(k) implies slot_map(s2)[k] == slot_map(s).insert(e.key@, (e.value, e.last_updated))[k] by {
        let j = slot_keys(s2).index_of(k);
        assert(slot_keys(s2)[j] == k);
        lemma_slot_at(s2, j);
        if j != i {
            assert(slot_keys(s)[j] == k);
            assert(slot_keys(s)[i] == e.key@);
            lemma_slot_at(s, j);
        }
    }
    assert(slot_map(s2) =~= slot_map(s).insert(e.key@, (e.value, e.last_updated)));
}

proof fn lemma_slot_remove<K: View, V>(s: Seq<Slot<K, V>>, i: int)
    requires
        slot_keys(s).no_duplicates(),
        0 <= i < s.len(),
    ensures
        slot_keys(s.remove(i)).no_duplicates(),
        slot_map(s.remove(i)) == slot_map(s).remove(s[i].key@),
{
    let s2 = s.remove(i);
    let k0 = s[i].key@;
    let ks = slot_keys(s);
    let ks2 = slot_keys(s2);
    assert(ks2 =~= ks.remove(i));
    assert(ks[i] == k0);
    assert forall|k: K::V| ks2.contains(k) implies ks.contains(k) && k != k0 by {
        let j = choose|j: int| 0 <= j < ks2.len() && #[trigger] ks2[j] == k;
        let j0 = if j < i { j } else { j + 1 };
        assert(ks[j0] == k);
    }
    assert forall|k: K::V| ks.contains(k) && k != k0 implies ks2.contains(k) by {
        let j = choose|j: int| 0 <= j < ks.len() && #[trigger] ks[j] == k;
        let j2 = if j < i { j } else { j - 1 };
        assert(ks2[j2] == k);
    }
    assert(slot_map(s2).dom() =~= slot_map(s).remove(k0).dom());
    assert forall|k: K::V| #[trigger] slot_map(s2).dom().contains(k) implies slot_map(s2)[k] == slot_map(s).remove(k0)[k] by {
        let j = ks2.index_of(k);
        assert(ks2[j] == k);
        lemma_slot_at(s2, j);
        let j0 = if j < i { j } else { j + 1 };
        assert(s2[j] == s[j0]);
        lemma_slot_at(s, j0);
    }
    assert(slot_map(s2) =~= slot_map(s).remove(k0));
}

proof fn lemma_slot_len<K: View, V>(s: Seq<Slot<K, V>>)
    requires
        slot_keys(s).no_duplicates(),
    ensures
        slot_map(s).dom().finite(),
        slot_map(s).dom().len() == s.len(),
{
    assert(slot_map(s).dom() =~= slot_keys(s).to_set());
    slot_keys(s).unique_seq_to_set();
}

impl<K: MapKey, V> View for BoundedMap<K, V> {
    type V = BoundedView<K::V, V>;

    closed spec fn view(&self) -> BoundedView<K::V, V> {
        BoundedView { config: self.config, entries: slot_map(self.entries@) }
    }
}

impl<K: MapKey, V> BoundedMap<K, V> {
    #[verifier::type_invariant]
    spec fn wf(self) -> bool {
        slot_keys(self.entries@).no_duplicates()
    }

    pub fn new(config: BoundedMapConfig) -> (r: BoundedMap<K, V>)
        ensures
            r@.config == config,
            r@.entries == Map::<K::V, (V, u128)>::empty(),
    {
        let r = BoundedMap { config, entries: Vec::new(), tie_start: fresh_seed() };
        assert(slot_map(r.entries@) =~= Map::<K::V, (V, u128)>::empty());
        r
    }

    pub fn len(&self) -> (r: usize)
        ensures
            self@.entries.dom().finite(),
            r == self@.entries.len(),
    {
        proof {
            use_type_invariant(self);
            lemma_slot_len(self.entries@);
        }
        self.entries.len()
    }

    pub fn is_empty(&self) -> (r: bool)
        ensures
            r == (self@.entries.len() == 0),
    {
        self.len() == 0
    }

    fn find(&self, key: &K) -> (r: Option<usize>)
        ensures
            match r {
                Some(i) => i < self.entries@.len() && self.entries@[i as int].key@ == key@ && self@.entries.dom().contains(key@)
                    && self@.entries[key@] == (self.entries@[i as int].value, self.entries@[i as int].last_updated),
                None => !self@.entries.dom().contains(key@),
            },
    {
        proof {
            use_type_invariant(self);
        }
        let mut i: usize = 0;
        while i < self.entries.len()
            invariant
                i <= self.entries@.len(),
                slot_keys(self.entries@).no_duplicates(),
                forall|j: int| 0 <= j < i ==> #[trigger] self.entries@[j].key@ != key@,
            decreases self.entries@.len() - i,
        {
            if self.entries[i].key.same_key(key) {
                proof {
                    lemma_slot_at(self.entries@, i as int);
                }
                return Some(i);
            }
            i = i + 1;
        }
        proof {
            if slot_keys(self.entries@).contains(key@) {
                let j = choose|j: int| 0 <= j < slot_keys(self.entries@).len() && #[trigger] slot_keys(self.entries@)[j] == key@;
                assert(self.entries@[j].key@ == key@);
            }
        }
        None
    }

    pub fn config(&self) -> (r: BoundedMapConfig)
        ensures
            r == self@.config,
    {
        self.config
    }

    /// The value for `key`, if it is tracked.
    pub fn get(&self, key: &K) -> (r: Option<&V>)
        ensures
            match r {
                Some(v) => self@.entries.dom().contains(key@) && *v == self@.entries[key@].0,
                None => !self@.entries.dom().contains(key@),
            },
    {
        match self.find(key) {
            Some(i) => Some(&self.entries[i].value),
            None => None,
        }
    }

    /// Inserts `key` with the value `update(default())`, or replaces a
    /// tracked key's value `v` with `update(v)`; either way the key's
    /// update instant becomes `now`. A new key in a full map first
    /// evicts an entry with the oldest update instant.
    pub fn upsert(&mut self, key: K, now: u128, default: impl FnOnce() -> V, update: impl FnOnce(V) -> V) -> (r: UpsertOutcome)
        requires
            default.requires(()),
            forall|v: V| #[trigger] update.requires((v,)),
        ensures
            final(self)@.config == old(self)@.config,
            old(self)@.config.max_entries == 0 ==> r == UpsertOutcome::Rejected && final(self)@ == old(self)@,
            old(self)@.config.max_entries > 0 ==> final(self)@.entries.dom().contains(key@)
                && final(self)@.entries[key@].1 == now,
            old(self)@.config.max_entries > 0 && old(self)@.entries.dom().contains(key@) ==> r == UpsertOutcome::Updated
                && final(self)@.entries == old(self)@.entries.insert(key@, final(self)@.entries[key@])
                && update.ensures((old(self)@.entries[key@].0,), final(self)@.entries[key@].0),
            old(self)@.config.max_entries > 0 && !old(self)@.entries.dom().contains(key@) ==> (exists|d: V|
                default.ensures((), d) && #[trigger] update.ensures((d,), final(self)@.entries[key@].0)),
            old(self)@.config.max_entries > 0 && !old(self)@.entries.dom().contains(key@)
                && old(self)@.entries.len() < old(self)@.config.max_entries ==> r == UpsertOutcome::Inserted
                && final(self)@.entries == old(self)@.entries.insert(key@, final(self)@.entries[key@]),
            old(self)@.config.max_entries > 0 && !old(self)@.entries.dom().contains(key@)
                && old(self)@.entries.len() >= old(self)@.config.max_entries ==> r == UpsertOutcome::InsertedByEviction
                && exists|victim: K::V| {
                    &&& #[trigger] old(self)@.entries.dom().contains(victim)
                    &&& forall|k: K::V| #[trigger] old(self)@.entries.dom().contains(k) ==> old(self)@.entries[victim].1 <= old(self)@.entries[k].1
                    &&& final(self)@.entries == old(self)@.entries.remove(victim).insert(key@, final(self)@.entries[key@])
                },
    {
        proof {
            use_type_invariant(&*self);
        }
        if self.config.max_entries == 0 {
            return UpsertOutcome::Rejected;
        }
        let ghost s0 = self.entries@;
        let mut entries: Vec<Slot<K, V>> = Vec::new();
        std::mem::swap(&mut entries, &mut self.entries);
        let mut i: usize = 0;
        let mut found: Option<usize> = None;
        while i < entries.len()
            invariant
                i <= entries@.len(),
                entries@ == s0,
                slot_keys(s0).no_duplicates(),
                found is None ==> forall|j: int| 0 <= j < i ==> #[trigger] s0[j].key@ != key@,
                found matches Some(f) ==> f < s0.len() && s0[f as int].key@ == key@,
            decreases entries@.len() - i,
        {
            if found.is_none() && entries[i].key.same_key(&key) {
                found = Some(i);
            }
            i = i + 1;
        }
        match found {
            Some(f) => {
                proof {
                    lemma_slot_at(s0, f as int);
                }
                let slot = entries.remove(f);
                let value = update(slot.value);
                let new_slot = Slot { key: slot.key, value, last_updated: now };
                proof {
                    lemma_slot_update(s0, f as int, new_slot);
                    lemma_slot_at(s0.update(f as int, new_slot), f as int);
                }
                entries.insert(f, new_slot);
                proof {
                    assert(entries@ =~= s0.update(f as int, new_slot));
                }
                self.entries = entries;
                return UpsertOutcome::Updated;
            },
            None => {},
        }
        proof {
            if slot_keys(s0).contains(key@) {
                let j = choose|j: int| 0 <= j < slot_keys(s0).len() && #[trigger] slot_keys(s0)[j] == key@;
                assert(s0[j].key@ == key@);
            }
            lemma_slot_len(s0);
        }
        let mut outcome = UpsertOutcome::Inserted;
        let ghost s1 = s0;
        if entries.len() >= self.config.max_entries {
            let mut victim: usize = 0;
            let mut j: usize = 1;
            while j < entries.len()
                invariant
                    entries@ == s0,
                    0 < entries@.len(),
                    victim < entries@.len(),
                    1 <= j <= entries@.len(),
                    forall|m: int| 0 <= m < j ==> s0[victim as int].last_updated <= #[trigger] s0[m].last_updated,
                decreases entries@.len() - j,
            {
                if entries[j].last_updated < entries[victim].last_updated {
                    victim = j;
                }
                j = j + 1;
            }
            // Among the entries updated at that oldest instant, the first
            // from a per-map starting point, so that which of them goes is
            // not fixed by the order they arrived in.
            let oldest = entries[victim].last_updated;
            let n = entries.len();
            let start = (self.tie_start % (n as u64)) as usize;
            let mut k: usize = 0;
            let mut tied: Option<usize> = None;
            while k < n
                invariant
                    n == entries@.len(),
                    entries@ == s0,
                    start < n,
                    k <= n,
                    tied matches Some(t) ==> t < n && s0[t as int].last_updated == oldest,
                decreases n - k,
            {
                let idx = if k < n - start { start + k } else { k - (n - start) };
                if tied.is_none() && entries[idx].last_updated == oldest {
                    tied = Some(idx);
                }
                k = k + 1;
            }
            match tied {
                Some(t) => {
                    victim = t;
                },
                None => {},
            }
            proof {
                lemma_slot_at(s0, victim as int);
                lemma_slot_remove(s0, victim as int);
                assert forall|k: K::V| #[trigger] slot_map(s0).dom().contains(k) implies slot_map(s0)[s0[victim as int].key@].1 <= slot_map(s0)[k].1 by {
                    let m = slot_keys(s0).index_of(k);
                    assert(slot_keys(s0)[m] == k);
                    lemma_slot_at(s0, m);
                }
            }
            entries.remove(victim);
            proof {
                s1 = s0.remove(victim as int);
            }
            outcome = UpsertOutcome::InsertedByEviction;
        }
        let d = default();
        let ghost dg = d;
        let value = update(d);
        let new_slot = Slot { key, value, last_updated: now };
        proof {
            assert(!slot_map(s1).dom().contains(new_slot.key@));
            lemma_slot_push(s1, new_slot);
            lemma_slot_at(s1.push(new_slot), s1.len() as int);
            assert(default.ensures((), dg) && update.ensures((dg,), new_slot.value));
        }
        let ghost vg = new_slot.value;
        entries.push(new_slot);
        self.entries = entries;
        proof {
            assert(self@.entries[key@] == (vg, now));
            assert(default.ensures((), dg) && update.ensures((dg,), self@.entries[key@].0));
        }
        outcome
    }

    /// Removes every entry not updated for longer than the inactivity
    /// ttl, and returns how many it removed.
    pub fn expire_inactive(&mut self, now: u128) -> (r: usize)
        ensures
            final(self)@.config == old(self)@.config,
            forall|k: K::V| #[trigger] final(self)@.entries.dom().contains(k) <==> (old(self)@.entries.dom().contains(k)
                && elapsed_since(now, old(self)@.entries[k].1) <= old(self)@.config.inactivity_ttl),
            forall|k: K::V| #[trigger] final(self)@.entries.dom().contains(k) ==> final(self)@.entries[k] == old(self)@.entries[k],
            old(self)@.entries.dom().finite(),
            final(self)@.entries.dom().finite(),
            r == old(self)@.entries.len() - final(self)@.entries.len(),
    {
        proof {
            use_type_invariant(&*self);
            lemma_slot_len(self.entries@);
        }
        let ttl = self.config.inactivity_ttl;
        let n0 = self.entries.len();
        let ghost s0 = self.entries@;
        let mut rest: Vec<Slot<K, V>> = Vec::new();
        std::mem::swap(&mut rest, &mut self.entries);
        let mut kept: Vec<Slot<K, V>> = Vec::new();
        let mut removed: usize = 0;
        while rest.len() > 0
            invariant
                rest@ == s0.subrange(0, rest@.len() as int),
                rest@.len() <= s0.len(),
                s0.len() == n0,
                slot_keys(s0).no_duplicates(),
                slot_keys(kept@).no_duplicates(),
                forall|k: K::V| #[trigger] slot_map(kept@).dom().contains(k) <==> exists|j: int| rest@.len() <= j < s0.len()
                    && s0[j].key@ == k && elapsed_since(now, s0[j].last_updated) <= ttl,
                forall|j: int| rest@.len() <= j < s0.len() && elapsed_since(now, #[trigger] s0[j].last_updated) <= ttl
                    ==> slot_map(kept@)[s0[j].key@] == (s0[j].value, s0[j].last_updated),
                removed + kept@.len() == s0.len() - rest@.len(),
            decreases rest@.len(),
        {
            let ghost n = rest@.len() - 1;
            let slot = match rest.pop() {
                Some(x) => x,
                None => {
                    proof {
                        assert(false);
                    }
                    return 0;
                },
            };
            assert(slot == s0[n]);
            let quiet: u128 = if now >= slot.last_updated { now - slot.last_updated } else { 0 };
            if quiet <= ttl {
                proof {
                    assert forall|j: int| n < j < s0.len() implies #[trigger] s0[j].key@ != slot.key@ by {
                        assert(slot_keys(s0)[j] == s0[j].key@ && slot_keys(s0)[n] == s0[n].key@);
                    }
                    assert(!slot_map(kept@).dom().contains(slot.key@));
                    lemma_slot_push(kept@, slot);
                }
                kept.push(slot);
            } else {
                removed = removed + 1;
            }
            proof {
                assert(rest@ =~= s0.subrange(0, n));
            }
        }
        proof {
            lemma_slot_len(kept@);
            assert forall|k: K::V| #[trigger] slot_map(kept@).dom().contains(k) <==> (slot_map(s0).dom().contains(k)
                && elapsed_since(now, slot_map(s0)[k].1) <= ttl) by {
                if slot_map(s0).dom().contains(k) {
                    let m = slot_keys(s0).index_of(k);
                    assert(slot_keys(s0)[m] == k);
                    lemma_slot_at(s0, m);
                }
                if slot_map(kept@).dom().contains(k) {
                    let j = choose|j: int| 0 <= j < s0.len() && s0[j].key@ == k && elapsed_since(now, s0[j].last_updated) <= ttl;
                    lemma_slot_at(s0, j);
                }
            }
            assert forall|k: K::V| #[trigger] slot_map(kept@).dom().contains(k) implies slot_map(kept@)[k] == slot_map(s0)[k] by {
                let j = choose|j: int| 0 <= j < s0.len() && s0[j].key@ == k && elapsed_since(now, s0[j].last_updated) <= ttl;
                lemma_slot_at(s0, j);
            }
        }
        self.entries = kept;
        removed
    }

    /// Every tracked key with its value.
    pub fn iter(&self) -> (r: Vec<(&K, &V)>)
        ensures
            r@.len() == self@.entries.len(),
            self@.entries.dom().finite(),
            forall|i: int| 0 <= i < r@.len() ==> self@.entries.dom().contains((#[trigger] r@[i]).0@)
                && *r@[i].1 == self@.entries[r@[i].0@].0,
            forall|i: int, j: int| 0 <= i < j < r@.len() ==> (#[trigger] r@[i]).0@ != (#[trigger] r@[j]).0@,
    {
        proof {
            use_type_invariant(self);
            lemma_slot_len(self.entries@);
        }
        let mut out: Vec<(&K, &V)> = Vec::new();
        let mut i: usize = 0;
        while i < self.entries.len()
            invariant
                i <= self.entries@.len(),
                slot_keys(self.entries@).no_duplicates(),
                out@.len() == i,
                forall|m: int| 0 <= m < i ==> (#[trigger] out@[m]).0@ == self.entries@[m].key@ && *out@[m].1 == self.entries@[m].value,
            decreases self.entries@.len() - i,
        {
            out.push((&self.entries[i].key, &self.entries[i].value));
            i = i + 1;
        }
        proof {
            assert forall|m: int| 0 <= m < out@.len() implies self@.entries.dom().contains((#[trigger] out@[m]).0@)
                && *out@[m].1 == self@.entries[out@[m].0@].0 by {
                lemma_slot_at(self.entries@, m);
            }
            assert forall|a: int, b: int| 0 <= a < b < out@.len() implies (#[trigger] out@[a]).0@ != (#[trigger] out@[b]).0@ by {
                assert(slot_keys(self.entries@)[a] == self.entries@[a].key@);
                assert(slot_keys(self.entries@)[b] == self.entries@[b].key@);
            }
        }
        out
    }
}

/// `now - since`, or zero when `since` is later.
pub open spec fn elapsed_since(now: u128, since: u128) -> u128 {
    if now >= since { (now - since) as u128 } else { 0 }
}

} // verus!
