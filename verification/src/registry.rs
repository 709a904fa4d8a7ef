//! Tenant-aware local-prefix registry: IPv4 and IPv6 kept in separate
//! tries, longest-prefix match, duplicate and overlap detection, and
//! hostgroup membership.

use vstd::prelude::*;

verus! {

use crate::net::IpAddress;
use crate::render::{decimal, ip_text, push_decimal, push_ip, push_text, string_from_chars};
use crate::trie::{addr_path, ancestor_overlaps, narrower_overlaps, paths_ascending, InsertOutcome, OverlapKind, PrefixTrie, TrieError};

/// One registered local prefix's metadata.
#[derive(Debug, Clone, PartialEq, Eq)]
pub struct PrefixEntry {
    pub tenant: String,
    pub hostgroup: Option<String>,
    pub prefix_len: u8,
}

/// A successful lookup: which entry matched, and how specific the match
/// was.
#[derive(Debug, Clone, Copy, PartialEq, Eq)]
pub struct PrefixMatch<'a> {
    pub entry: &'a PrefixEntry,
    pub matched_prefix_len: u8,
}

#[derive(Debug, Clone, PartialEq, Eq, Structural)]
pub enum RegistryError {
    /// The prefix length exceeds the family's width (length, width).
    PrefixTooLong(u8, u8),
    /// An entry for this exact network and length already exists.
    DuplicatePrefix,
}

pub open spec fn registry_error_of(e: TrieError) -> RegistryError {
    match e {
        TrieError::PrefixTooLong(got, max) => RegistryError::PrefixTooLong(got, max),
        TrieError::DuplicatePrefix => RegistryError::DuplicatePrefix,
    }
}

impl From<TrieError> for RegistryError {
    fn from(e: TrieError) -> (r: RegistryError) {
        match e {
            TrieError::PrefixTooLong(got, max) => RegistryError::PrefixTooLong(got, max),
            TrieError::DuplicatePrefix => RegistryError::DuplicatePrefix,
        }
    }
}

impl vstd::std_specs::convert::FromSpecImpl<TrieError> for RegistryError {
    open spec fn obeys_from_spec() -> bool {
        true
    }

    open spec fn from_spec(e: TrieError) -> RegistryError {
        registry_error_of(e)
    }
}

/// An overlap found when inserting `network/prefix_len`: the existing
/// prefix is broader or narrower, of the given length.
#[derive(Debug, Clone, PartialEq, Eq)]
pub struct OverlapDiagnostic {
    pub network: IpAddress,
    pub prefix_len: u8,
    pub overlap: OverlapKind,
}

/// The message of an overlap diagnostic.
pub open spec fn overlap_text(d: OverlapDiagnostic) -> Seq<char> {
    let head = ip_text(d.network) + "/"@ + decimal(d.prefix_len as nat);
    if d.overlap.broader {
        head + " is contained within an already-registered /"@ + decimal(d.overlap.existing_prefix_len as nat)
    } else {
        head + " already contains a more specific, already-registered /"@ + decimal(d.overlap.existing_prefix_len as nat)
    }
}

impl OverlapDiagnostic {
    /// What the overlap means, for an operator.
    pub fn message(&self) -> (r: String)
        ensures
            r@ == overlap_text(*self),
    {
        let mut out: Vec<char> = Vec::new();
        push_ip(&mut out, self.network);
        push_text(&mut out, "/");
        push_decimal(&mut out, self.prefix_len as u128);
        if self.overlap.broader {
            push_text(&mut out, " is contained within an already-registered /");
        } else {
            push_text(&mut out, " already contains a more specific, already-registered /");
        }
        push_decimal(&mut out, self.overlap.existing_prefix_len as u128);
        proof {
            reveal_strlit("/");
            reveal_strlit(" is contained within an already-registered /");
            reveal_strlit(" already contains a more specific, already-registered /");
            assert(out@ =~= overlap_text(*self));
        }
        string_from_chars(out)
    }
}

/// The address bits of `addr` as a trie holds them.
pub open spec fn addr_bits(addr: IpAddress) -> u128 {
    match addr {
        IpAddress::V4(a) => a as u128,
        IpAddress::V6(a) => a,
    }
}

/// The width of `addr`'s family.
pub open spec fn family_width(addr: IpAddress) -> u8 {
    match addr {
        IpAddress::V4(_) => 32,
        IpAddress::V6(_) => 128,
    }
}

/// The prefix `network/prefix_len` as a trie path.
pub open spec fn prefix_path(network: IpAddress, prefix_len: u8) -> Seq<bool> {
    addr_path(addr_bits(network), family_width(network), prefix_len as int)
}

/// Why registering `network/prefix_len` in `r` fails, if it does: a
/// length beyond the family's width, or an exact duplicate.
pub open spec fn insert_error(r: RegistryView, network: IpAddress, prefix_len: u8) -> Option<RegistryError> {
    if prefix_len > family_width(network) {
        Some(RegistryError::PrefixTooLong(prefix_len, family_width(network)))
    } else if family_prefixes(r, network).dom().contains(prefix_path(network, prefix_len)) {
        Some(RegistryError::DuplicatePrefix)
    } else {
        None
    }
}

/// `r` after registering `entry` for `network/prefix_len`: unchanged on
/// failure, else the family's map gains the prefix and the count grows
/// by one (stopping at its maximum).
pub open spec fn after_insert(r: RegistryView, network: IpAddress, prefix_len: u8, entry: PrefixEntry) -> RegistryView {
    if insert_error(r, network, prefix_len) is Some {
        r
    } else {
        let p = prefix_path(network, prefix_len);
        let len = if r.len == usize::MAX { usize::MAX } else { (r.len + 1) as usize };
        match network {
            IpAddress::V4(_) => RegistryView { v4: r.v4.insert(p, entry), len, ..r },
            IpAddress::V6(_) => RegistryView { v6: r.v6.insert(p, entry), len, ..r },
        }
    }
}

/// `o` is what registering `network/prefix_len` among `m` finds: the
/// registered prefixes containing it, shortest first, then those it
/// contains, in trie order (by the paths `qs` below it).
pub open spec fn overlaps_found(m: Map<Seq<bool>, PrefixEntry>, network: IpAddress, prefix_len: u8, o: Seq<OverlapKind>) -> bool {
    exists|qs: Seq<Seq<bool>>| {
        &&& paths_ascending(qs)
        &&& forall|x: Seq<bool>| #[trigger] qs.contains(x) <==> (x.len() > 0 && m.dom().contains(prefix_path(network, prefix_len) + x))
        &&& o == ancestor_overlaps(m, addr_bits(network), family_width(network), prefix_len as int) + narrower_overlaps(qs, prefix_len as int)
    }
}

/// The overlap kinds of a run of diagnostics.
pub open spec fn kinds(d: Seq<OverlapDiagnostic>) -> Seq<OverlapKind> {
    d.map_values(|x: OverlapDiagnostic| x.overlap)
}

/// Every diagnostic of `d` names the prefix `network/prefix_len`.
pub open spec fn all_name(d: Seq<OverlapDiagnostic>, network: IpAddress, prefix_len: u8) -> bool {
    forall|i: int| 0 <= i < d.len() ==> (#[trigger] d[i]).network == network && d[i].prefix_len == prefix_len
}

/// The diagnostics registering `network/prefix_len` in `r` gives: one per
/// registered prefix of its family that contains it or that it contains.
pub open spec fn insert_diagnostics(r: RegistryView, network: IpAddress, prefix_len: u8, d: Seq<OverlapDiagnostic>) -> bool {
    all_name(d, network, prefix_len) && overlaps_found(family_prefixes(r, network), network, prefix_len, kinds(d))
}

/// Local prefixes of both families, with a count of insertions.
#[derive(Debug)]
pub struct PrefixRegistry {
    ipv4: PrefixTrie<PrefixEntry>,
    ipv6: PrefixTrie<PrefixEntry>,
    len: usize,
}

/// A [`PrefixRegistry`] as values.
pub struct RegistryView {
    pub v4: Map<Seq<bool>, PrefixEntry>,
    pub v6: Map<Seq<bool>, PrefixEntry>,
    pub len: usize,
}

/// The prefixes of `network`'s family in `r`.
pub open spec fn family_prefixes(r: RegistryView, network: IpAddress) -> Map<Seq<bool>, PrefixEntry> {
    match network {
        IpAddress::V4(_) => r.v4,
        IpAddress::V6(_) => r.v6,
    }
}

impl View for PrefixRegistry {
    type V = RegistryView;

    closed spec fn view(&self) -> RegistryView {
        RegistryView { v4: self.ipv4@.prefixes, v6: self.ipv6@.prefixes, len: self.len }
    }
}

impl PrefixRegistry {
    #[verifier::type_invariant]
    spec fn wf(self) -> bool {
        self.ipv4@.max_bits == 32 && self.ipv6@.max_bits == 128
    }

    /// An empty registry.
    pub fn new() -> (r: PrefixRegistry)
        ensures
            r@.v4 == Map::<Seq<bool>, PrefixEntry>::empty(),
            r@.v6 == Map::<Seq<bool>, PrefixEntry>::empty(),
            r@.len == 0,
    {
        PrefixRegistry { ipv4: PrefixTrie::new(32), ipv6: PrefixTrie::new(128), len: 0 }
    }

    /// Whether no prefix was registered.
    pub fn is_empty(&self) -> (r: bool)
        ensures
            r == (self@.len == 0),
    {
        self.len == 0
    }

    /// How many prefixes were registered.
    pub fn len(&self) -> (r: usize)
        ensures
            r == self@.len,
    {
        self.len
    }

    /// Registers one prefix. Refuses a length beyond the family's width
    /// and an exact duplicate, changing nothing; otherwise returns one
    /// diagnostic per overlapping registered prefix (possibly none).
    pub fn insert(&mut self, network: IpAddress, prefix_len: u8, tenant: String, hostgroup: Option<String>) -> (r: Result<Vec<OverlapDiagnostic>, RegistryError>)
        ensures
            final(self)@ == after_insert(old(self)@, network, prefix_len, PrefixEntry { tenant, hostgroup, prefix_len }),
            match insert_error(old(self)@, network, prefix_len) {
                Some(e) => r == Err::<Vec<OverlapDiagnostic>, RegistryError>(e),
                None => r matches Ok(d) && insert_diagnostics(old(self)@, network, prefix_len, d@),
            },
    {
        proof {
            use_type_invariant(&*self);
        }
        let ghost r0 = self@;
        let entry = PrefixEntry { tenant, hostgroup, prefix_len };
        let result = match network {
            IpAddress::V4(a) => {
                let mut t: PrefixTrie<PrefixEntry> = PrefixTrie::new(32);
                std::mem::swap(&mut t, &mut self.ipv4);
                let r = t.insert(a as u128, prefix_len, entry);
                self.ipv4 = t;
                r
            },
            IpAddress::V6(a) => {
                let mut t: PrefixTrie<PrefixEntry> = PrefixTrie::new(128);
                std::mem::swap(&mut t, &mut self.ipv6);
                let r = t.insert(a, prefix_len, entry);
                self.ipv6 = t;
                r
            },
        };
        let outcome: InsertOutcome = match result {
            Ok(o) => o,
            Err(e) => {
                return Err(RegistryError::from(e));
            },
        };
        self.len = self.len.saturating_add(1);
        let mut diagnostics: Vec<OverlapDiagnostic> = Vec::new();
        let mut i: usize = 0;
        while i < outcome.overlaps.len()
            invariant
                i <= outcome.overlaps@.len(),
                diagnostics@.len() == i,
                forall|j: int| 0 <= j < i ==> (#[trigger] diagnostics@[j]).network == network && diagnostics@[j].prefix_len == prefix_len
                    && diagnostics@[j].overlap == outcome.overlaps@[j],
            decreases outcome.overlaps@.len() - i,
        {
            diagnostics.push(OverlapDiagnostic { network, prefix_len, overlap: outcome.overlaps[i] });
            i = i + 1;
        }
        proof {
            assert(kinds(diagnostics@) =~= outcome.overlaps@);
            assert(overlaps_found(family_prefixes(r0, network), network, prefix_len, kinds(diagnostics@)));
        }
        Ok(diagnostics)
    }

    /// Longest-prefix match in `addr`'s family: the entry of the longest
    /// registered prefix covering `addr`, or `None`.
    pub fn lookup(&self, addr: IpAddress) -> (r: Option<PrefixMatch<'_>>)
        ensures
            ({
                let m = family_prefixes(self@, addr);
                let w = family_width(addr);
                match r {
                    Some(pm) => pm.matched_prefix_len <= w
                        && m.dom().contains(addr_path(addr_bits(addr), w, pm.matched_prefix_len as int))
                        && *pm.entry == m[addr_path(addr_bits(addr), w, pm.matched_prefix_len as int)]
                        && forall|k: int| pm.matched_prefix_len < k <= w ==> !m.dom().contains(#[trigger] addr_path(addr_bits(addr), w, k)),
                    None => forall|k: int| 0 <= k <= w ==> !m.dom().contains(#[trigger] addr_path(addr_bits(addr), w, k)),
                }
            }),
    {
        proof {
            use_type_invariant(self);
        }
        let found = match addr {
            IpAddress::V4(a) => self.ipv4.lookup(a as u128),
            IpAddress::V6(a) => self.ipv6.lookup(a),
        };
        match found {
            Some((entry, len)) => Some(PrefixMatch { entry, matched_prefix_len: len }),
            None => None,
        }
    }
}

/// One raw configuration entry, before validation.
#[derive(Debug, Clone, PartialEq, Eq)]
pub struct PrefixConfigEntry {
    pub network: IpAddress,
    pub prefix_len: u8,
    pub tenant: String,
    pub hostgroup: Option<String>,
}

#[derive(Debug, Clone, PartialEq, Eq, Structural)]
pub enum ConfigValidationError {
    /// Entry number `index` (from 0) could not be registered.
    InvalidEntry { index: usize, network: IpAddress, prefix_len: u8, source: RegistryError },
}

/// A registry built from configuration, with its overlap warnings.
#[derive(Debug)]
pub struct ValidationReport {
    pub registry: PrefixRegistry,
    pub warnings: Vec<OverlapDiagnostic>,
}

/// The registry after the first `n` entries, each registered in turn.
pub open spec fn built(entries: Seq<PrefixConfigEntry>, n: int) -> RegistryView
    decreases n,
{
    if n <= 0 {
        RegistryView { v4: Map::empty(), v6: Map::empty(), len: 0 }
    } else {
        let e = entries[n - 1];
        after_insert(built(entries, n - 1), e.network, e.prefix_len, PrefixEntry { tenant: e.tenant, hostgroup: e.hostgroup, prefix_len: e.prefix_len })
    }
}

/// The errors of the first `n` entries, in order.
pub open spec fn build_errors(entries: Seq<PrefixConfigEntry>, n: int) -> Seq<ConfigValidationError>
    decreases n,
{
    if n <= 0 {
        Seq::empty()
    } else {
        let e = entries[n - 1];
        match insert_error(built(entries, n - 1), e.network, e.prefix_len) {
            Some(err) => build_errors(entries, n - 1).push(ConfigValidationError::InvalidEntry {
                index: (n - 1) as usize,
                network: e.network,
                prefix_len: e.prefix_len,
                source: err,
            }),
            None => build_errors(entries, n - 1),
        }
    }
}

/// The runs of `ds`, one after another.
pub open spec fn joined(ds: Seq<Seq<OverlapDiagnostic>>) -> Seq<OverlapDiagnostic>
    decreases ds.len(),
{
    if ds.len() == 0 {
        Seq::empty()
    } else {
        joined(ds.drop_last()) + ds.last()
    }
}

/// `ds` holds, for each of the first `n` entries, the diagnostics its
/// registration gave: none when it failed.
pub open spec fn entry_warnings(entries: Seq<PrefixConfigEntry>, n: int, ds: Seq<Seq<OverlapDiagnostic>>) -> bool {
    &&& ds.len() == n
    &&& forall|i: int| 0 <= i < n ==> {
        let e = entries[i];
        if insert_error(built(entries, i), e.network, e.prefix_len) is None {
            insert_diagnostics(built(entries, i), e.network, e.prefix_len, #[trigger] ds[i])
        } else {
            ds[i].len() == 0
        }
    }
}

fn copy_text(o: &Option<String>) -> (r: Option<String>)
    ensures
        r == *o,
{
    match o {
        Some(t) => Some(t.clone()),
        None => None,
    }
}

/// Builds a registry from configuration entries, registering each in
/// turn and collecting every error rather than stopping at the first.
pub fn build_registry(entries: &Vec<PrefixConfigEntry>) -> (r: Result<ValidationReport, Vec<ConfigValidationError>>)
    ensures
        ({
            let errs = build_errors(entries@, entries@.len() as int);
            if errs.len() == 0 {
                r matches Ok(rep) && rep.registry@ == built(entries@, entries@.len() as int)
                    && exists|ds: Seq<Seq<OverlapDiagnostic>>| entry_warnings(entries@, entries@.len() as int, ds)
                        && #[trigger] joined(ds) == rep.warnings@
            } else {
                r matches Err(e) && e@ == errs
            }
        }),
{
    let mut registry = PrefixRegistry::new();
    let mut warnings: Vec<OverlapDiagnostic> = Vec::new();
    let mut errors: Vec<ConfigValidationError> = Vec::new();
    let mut index: usize = 0;
    let ghost mut ds: Seq<Seq<OverlapDiagnostic>> = Seq::empty();
    proof {
        assert(registry@ == built(entries@, 0));
        assert(warnings@ =~= joined(ds));
    }
    while index < entries.len()
        invariant
            index <= entries@.len(),
            registry@ == built(entries@, index as int),
            errors@ == build_errors(entries@, index as int),
            entry_warnings(entries@, index as int, ds),
            warnings@ == joined(ds),
        decreases entries@.len() - index,
    {
        let e = &entries[index];
        let ghost before = registry@;
        let result = registry.insert(e.network, e.prefix_len, e.tenant.clone(), copy_text(&e.hostgroup));
        match result {
            Ok(mut overlaps) => {
                let ghost d = overlaps@;
                let ghost w0 = warnings@;
                warnings.append(&mut overlaps);
                proof {
                    assert(ds.push(d).drop_last() =~= ds);
                    assert(warnings@ =~= joined(ds.push(d)));
                    ds = ds.push(d);
                }
            },
            Err(source) => {
                errors.push(ConfigValidationError::InvalidEntry { index, network: e.network, prefix_len: e.prefix_len, source });
                proof {
                    let d = Seq::<OverlapDiagnostic>::empty();
                    assert(ds.push(d).drop_last() =~= ds);
                    assert(warnings@ =~= joined(ds.push(d)));
                    ds = ds.push(d);
                }
            },
        }
        proof {
            assert forall|i: int| 0 <= i < index + 1 implies {
                let e = entries@[i];
                if insert_error(built(entries@, i), e.network, e.prefix_len) is None {
                    insert_diagnostics(built(entries@, i), e.network, e.prefix_len, #[trigger] ds[i])
                } else {
                    ds[i].len() == 0
                }
            } by {
                if i < index {
                } else {
                    assert(before == built(entries@, i));
                }
            }
        }
        index = index + 1;
    }
    if errors.len() == 0 {
        Ok(ValidationReport { registry, warnings })
    } else {
        Err(errors)
    }
}

/// Registering entries one after another counts exactly the ones that
/// succeeded: the registry's length is the number of entries less the
/// number refused (below the counter's maximum).
pub proof fn law_len_counts_registered_entries(entries: Seq<PrefixConfigEntry>, n: int)
    requires
        0 <= n <= entries.len(),
        n < usize::MAX,
    ensures
        built(entries, n).len == n - build_errors(entries, n).len(),
        built(entries, n).len == 0 <==> build_errors(entries, n).len() == n,
    decreases n,
{
    if n > 0 {
        law_len_counts_registered_entries(entries, n - 1);
    }
}

/// `rs` is a run of [`PrefixRegistry::insert`] calls from
/// [`PrefixRegistry::new`]: `rs[0]` is empty and `rs[i + 1]` is `rs[i]`
/// after the `i`-th insert (see [`after_insert`]).
pub open spec fn insert_run(rs: Seq<RegistryView>, ins: Seq<(IpAddress, u8, PrefixEntry)>) -> bool {
    &&& rs.len() == ins.len() + 1
    &&& rs[0] == (RegistryView { v4: Map::empty(), v6: Map::empty(), len: 0 })
    &&& forall|i: int| 0 <= i < ins.len() ==> #[trigger] rs[i + 1] == after_insert(rs[i], ins[i].0, ins[i].1, ins[i].2)
}

/// How many of the first `n` inserts of a run succeeded.
pub open spec fn inserts_accepted(rs: Seq<RegistryView>, ins: Seq<(IpAddress, u8, PrefixEntry)>, n: int) -> nat
    decreases n,
{
    if n <= 0 {
        0
    } else {
        inserts_accepted(rs, ins, n - 1) + if insert_error(rs[n - 1], ins[n - 1].0, ins[n - 1].1) is None { 1nat } else { 0nat }
    }
}

proof fn lemma_run_len(rs: Seq<RegistryView>, ins: Seq<(IpAddress, u8, PrefixEntry)>, n: int)
    requires
        insert_run(rs, ins),
        0 <= n <= ins.len(),
        ins.len() < usize::MAX,
    ensures
        rs[n].len == inserts_accepted(rs, ins, n),
        inserts_accepted(rs, ins, n) <= n,
    decreases n,
{
    if n > 0 {
        lemma_run_len(rs, ins, n - 1);
        assert(rs[(n - 1) + 1] == after_insert(rs[n - 1], ins[n - 1].0, ins[n - 1].1, ins[n - 1].2));
    }
}

/// A registry counts exactly the inserts that succeeded: after any run
/// of inserts from an empty registry, its count is the number of calls
/// that returned `Ok`, refused ones (too long, duplicate) adding
/// nothing, and it is empty exactly when none succeeded.
pub proof fn law_registry_counts_successful_inserts(rs: Seq<RegistryView>, ins: Seq<(IpAddress, u8, PrefixEntry)>)
    requires
        insert_run(rs, ins),
        ins.len() < usize::MAX,
    ensures
        rs[ins.len() as int].len == inserts_accepted(rs, ins, ins.len() as int),
        rs[ins.len() as int].len == 0 <==> inserts_accepted(rs, ins, ins.len() as int) == 0,
{
    lemma_run_len(rs, ins, ins.len() as int);
}

} // verus!
