//! Per-exporter state: sequence-number tracking and restart detection.
//!
//! Template identifiers mean something only within one exporter's
//! observation domain, and an exporter that restarts may reuse them for
//! other templates; a regression of its sequence numbers is how a
//! restart shows, and tells the caller to drop that exporter's cached
//! templates.

use vstd::prelude::*;

verus! {

use crate::clock::instant_now;
use crate::net::IpAddress;

/// What is tracked of one exporter.
pub struct ExporterState {
    pub last_sequence_number: Option<u32>,
    pub first_seen: std::time::Instant,
    pub last_seen: std::time::Instant,
    /// Messages seen.
    pub packets_received: u64,
}

/// Whether `sequence_number` after `last` shows a restart: a plain
/// regression. A wrap of the 32-bit counter is reported as a restart
/// too; the cost is one unneeded clear of the template cache.
pub open spec fn is_restart(last: Option<u32>, sequence_number: u32) -> bool {
    match last {
        Some(l) => sequence_number < l,
        None => false,
    }
}

impl ExporterState {
    /// An exporter seen for the first time just now.
    pub fn new() -> (r: ExporterState)
        ensures
            r.last_sequence_number is None,
            r.packets_received == 0,
            r.first_seen == r.last_seen,
    {
        let now = instant_now();
        ExporterState { last_sequence_number: None, first_seen: now, last_seen: now, packets_received: 0 }
    }

    /// Records a message's sequence number, returning whether it shows a
    /// restart, after which the caller treats the templates it cached
    /// for this exporter as stale.
    pub fn observe_sequence(&mut self, sequence_number: u32) -> (r: bool)
        requires
            old(self).packets_received < u64::MAX,
        ensures
            r == is_restart(old(self).last_sequence_number, sequence_number),
            final(self).last_sequence_number == Some(sequence_number),
            final(self).packets_received == old(self).packets_received + 1,
            final(self).first_seen == old(self).first_seen,
    {
        self.last_seen = instant_now();
        self.packets_received = self.packets_received + 1;
        let restart = match self.last_sequence_number {
            Some(last) => sequence_number < last,
            None => false,
        };
        self.last_sequence_number = Some(sequence_number);
        restart
    }
}

/// One [`ExporterState`] per source address and port that has sent at
/// least one message.
pub struct ExporterRegistry {
    exporters: Vec<(IpAddress, u16, ExporterState)>,
}

/// The sources tracked, in the order first seen.
pub open spec fn sources(v: Seq<(IpAddress, u16, ExporterState)>) -> Seq<(IpAddress, u16)> {
    v.map_values(|e: (IpAddress, u16, ExporterState)| (e.0, e.1))
}

/// Where `key` is, or will be once added, among the tracked sources.
pub open spec fn slot_of(seen: Seq<(IpAddress, u16)>, key: (IpAddress, u16)) -> int {
    if seen.contains(key) {
        seen.index_of(key)
    } else {
        seen.len() as int
    }
}

impl ExporterRegistry {
    /// Each source is tracked once.
    pub open spec fn wf(self) -> bool {
        self.tracked_sources().no_duplicates()
    }

    /// Each tracked source with its state, in the order first seen.
    pub closed spec fn entries(self) -> Seq<(IpAddress, u16, ExporterState)> {
        self.exporters@
    }

    /// The sources tracked.
    pub open spec fn tracked_sources(self) -> Seq<(IpAddress, u16)> {
        sources(self.entries())
    }

    pub fn new() -> (r: ExporterRegistry)
        ensures
            r.wf(),
            r.entries().len() == 0,
    {
        let r = ExporterRegistry { exporters: Vec::new() };
        assert(r.tracked_sources() =~= Seq::<(IpAddress, u16)>::empty());
        r
    }

    /// The state of the exporter at `addr`:`port`, created if this is the
    /// first message from it; every other exporter's state is left as it
    /// was.
    pub fn get_or_create(&mut self, addr: IpAddress, port: u16) -> (r: &mut ExporterState)
        requires
            old(self).wf(),
        ensures
            final(self).wf(),
            old(self).tracked_sources().contains((addr, port)) ==> *r == old(self).entries()[slot_of(old(self).tracked_sources(), (addr, port))].2,
            !old(self).tracked_sources().contains((addr, port)) ==> r.last_sequence_number is None && r.packets_received == 0,
            final(self).entries().len() == if old(self).tracked_sources().contains((addr, port)) {
                old(self).entries().len()
            } else {
                old(self).entries().len() + 1
            },
            final(self).entries()[slot_of(old(self).tracked_sources(), (addr, port))] == (addr, port, *final(r)),
            forall|j: int|
                0 <= j < old(self).entries().len() && j != slot_of(old(self).tracked_sources(), (addr, port))
                    ==> #[trigger] final(self).entries()[j] == old(self).entries()[j],
    {
        let ghost s0 = sources(self.exporters@);
        let ghost key = (addr, port);
        let mut found: Option<usize> = None;
        let mut i: usize = 0;
        while i < self.exporters.len()
            invariant
                i <= self.exporters@.len(),
                s0 == sources(self.exporters@),
                key == (addr, port),
                found matches Some(f) ==> f < self.exporters@.len() && s0[f as int] == key,
                found is None ==> forall|j: int| 0 <= j < i ==> #[trigger] s0[j] != key,
            decreases self.exporters@.len() - i,
        {
            proof {
                assert(s0[i as int] == (self.exporters@[i as int].0, self.exporters@[i as int].1));
            }
            if found.is_none() && self.exporters[i].0 == addr && self.exporters[i].1 == port {
                found = Some(i);
            }
            i = i + 1;
        }
        let at = match found {
            Some(f) => {
                proof {
                    assert(s0.contains(key));
                    assert(s0[s0.index_of(key)] == key);
                    assert(s0.index_of(key) == f as int);
                }
                f
            },
            None => {
                proof {
                    assert(!s0.contains(key));
                }
                let fresh = ExporterState::new();
                self.exporters.push((addr, port, fresh));
                proof {
                    assert(sources(self.exporters@) =~= s0.push(key));
                    law_each_source_is_tracked_once(s0, s0.push(key), addr, port);
                }
                self.exporters.len() - 1
            },
        };
        let ghost mid = self.exporters@;
        proof {
            assert(sources(mid).no_duplicates());
            assert(sources(mid)[at as int] == key);
            assert forall|x: ExporterState| #[trigger] sources(mid.update(at as int, (addr, port, x))) == sources(mid) by {
                assert(sources(mid.update(at as int, (addr, port, x))) =~= sources(mid));
            }
        }
        &mut self.exporters[at].2
    }

    /// How many exporters have been seen.
    pub fn exporter_count(&self) -> (r: usize)
        ensures
            r == self.entries().len(),
    {
        self.exporters.len()
    }
}

/// Registering a source keeps every source tracked once: one already
/// tracked adds nothing, and a new one is added once.
pub proof fn law_each_source_is_tracked_once(before: Seq<(IpAddress, u16)>, after: Seq<(IpAddress, u16)>, addr: IpAddress, port: u16)
    requires
        before.no_duplicates(),
        before.contains((addr, port)) ==> after == before,
        !before.contains((addr, port)) ==> after == before.push((addr, port)),
    ensures
        after.no_duplicates(),
{
    if !before.contains((addr, port)) {
        assert forall|i: int, j: int| 0 <= i < j < after.len() implies after[i] != after[j] by {
            if j == before.len() {
                assert(before[i] == after[i]);
            }
        }
    }
}

} // verus!
