//! Sizes a recent `scan` already paid for.
//!
//! `scan` walks the disk, then `clean` walks exactly the same disk again a
//! few seconds later. This keeps the first walk's per-entry figures around so
//! the second one does not have to happen.
//!
//! Correctness comes first: a remembered size is only used when the entry
//! has not been modified since, and never after a few minutes have passed.
//! When in doubt the entry is measured again — a stale number here would be
//! a lie in the report.

use vstd::prelude::*;
use crate::text::{chars_eq, chars_of};

verus! {

/// How long a remembered size stays usable, in seconds.
pub const FRESH_FOR: u64 = 600;

/// One remembered measurement.
#[derive(Debug, Clone, Copy, PartialEq, Eq, Structural)]
pub struct Record {
    pub bytes: u64,
    /// Last modification when it was measured.
    pub mtime: u64,
}

/// Everything the last scan measured: each path at most once.
#[derive(Debug, Clone)]
pub struct Sizes {
    pub epoch: u64,
    pub entries: Vec<(String, Record)>,
}

/// What is remembered for a path: the last record with that path.
pub open spec fn record_of(entries: Seq<(String, Record)>, path: Seq<char>) -> Option<Record>
    decreases entries.len(),
{
    if entries.len() == 0 {
        None
    } else if entries.last().0@ == path {
        Some(entries.last().1)
    } else {
        record_of(entries.drop_last(), path)
    }
}

/// Whether no path is remembered twice.
pub open spec fn distinct_paths(entries: Seq<(String, Record)>) -> bool {
    forall|i: int, j: int| 0 <= i < j < entries.len() ==> (#[trigger] entries[i]).0@ != (#[trigger] entries[j]).0@
}

/// Whether an entry holds the last measurement of its path, at or after
/// position `lo`.
pub open spec fn last_measured(e: (String, Record), ms: Seq<(String, u64, u64)>, lo: int) -> bool {
    exists|x: int| lo <= x < ms.len() && e.0@ == ms[x].0@ && e.1.bytes == ms[x].1 && e.1.mtime == ms[x].2
        && forall|x2: int| x < x2 < ms.len() ==> (#[trigger] ms[x2]).0@ != ms[x].0@
}

fn lookup_record(entries: &Vec<(String, Record)>, path: &str) -> (r: Option<Record>)
    ensures
        r == record_of(entries@, path@),
{
    let p = chars_of(path);
    let mut i: usize = entries.len();
    assert(entries@.take(i as int) =~= entries@);
    while i > 0
        invariant
            i <= entries@.len(),
            p@ == path@,
            record_of(entries@, path@) == record_of(entries@.take(i as int), path@),
        decreases i,
    {
        assert(entries@.take(i as int).last() == entries@[i - 1]);
        assert(entries@.take(i as int).drop_last() =~= entries@.take(i - 1));
        if chars_eq(chars_of(entries[i - 1].0.as_str()).as_slice(), p.as_slice()) {
            return Some(entries[i - 1].1);
        }
        i -= 1;
    }
    None
}

impl Default for Sizes {
    fn default() -> (r: Self)
        ensures
            r.epoch == 0,
            r.entries@.len() == 0,
    {
        Sizes { epoch: 0, entries: Vec::new() }
    }
}

impl Sizes {
    /// What a scan measured at `epoch`: each path with its size and its
    /// modification time; a path measured twice keeps its last figure.
    pub fn remember(epoch: u64, measured: &Vec<(String, u64, u64)>) -> (r: Sizes)
        ensures
            r.epoch == epoch,
            distinct_paths(r.entries@),
            forall|i: int| 0 <= i < measured@.len() ==> (record_of(r.entries@, (#[trigger] measured@[i]).0@) is Some),
            forall|i: int| 0 <= i < r.entries@.len() ==> #[trigger] last_measured(r.entries@[i], measured@, 0),
    {
        let mut entries: Vec<(String, Record)> = Vec::new();
        let mut k: usize = measured.len();
        while k > 0
            invariant
                k <= measured@.len(),
                distinct_paths(entries@),
                forall|i: int| k <= i < measured@.len() ==> (record_of(entries@, (#[trigger] measured@[i]).0@) is Some),
                forall|i: int| 0 <= i < entries@.len() ==> #[trigger] last_measured(entries@[i], measured@, k as int),
            decreases k,
        {
            let m = &measured[k - 1];
            let known = lookup_record(&entries, m.0.as_str());
            let ghost before = entries@;
            if known.is_none() {
                entries.push((m.0.clone(), Record { bytes: m.1, mtime: m.2 }));
                proof {
                    lemma_record_absent(before, m.0@);
                    assert forall|i: int, j: int| 0 <= i < j < entries@.len() implies (#[trigger] entries@[i]).0@ != (#[trigger] entries@[j]).0@ by {
                        if j == before.len() {
                            assert(entries@[i] == before[i]);
                        } else {
                            assert(entries@[i] == before[i] && entries@[j] == before[j]);
                        }
                    }
                    assert forall|i: int| k - 1 <= i < measured@.len() implies record_of(entries@, (#[trigger] measured@[i]).0@) is Some by {
                        if measured@[i].0@ != m.0@ {
                            assert(entries@.drop_last() =~= before);
                        }
                    }
                    assert forall|i: int| 0 <= i < entries@.len() implies #[trigger] last_measured(entries@[i], measured@, k - 1) by {
                        if i == before.len() {
                            assert forall|x2: int| k - 1 < x2 < measured@.len() implies (#[trigger] measured@[x2]).0@ != measured@[k - 1].0@ by {
                                if measured@[x2].0@ == m.0@ {
                                    assert(record_of(before, measured@[x2].0@) is Some);
                                }
                            }
                            assert(measured@[k - 1].0@ == entries@[i].0@);
                        } else {
                            assert(entries@[i] == before[i]);
                            assert(last_measured(before[i], measured@, k as int));
                        }
                    }
                }
            } else {
                proof {
                    assert forall|i: int| k - 1 <= i < measured@.len() implies record_of(entries@, (#[trigger] measured@[i]).0@) is Some by {
                    }
                    assert forall|i: int| 0 <= i < entries@.len() implies #[trigger] last_measured(entries@[i], measured@, k - 1) by {
                        assert(last_measured(entries@[i], measured@, k as int));
                    }
                }
            }
            k -= 1;
        }
        Sizes { epoch, entries }
    }

    pub fn is_empty(&self) -> (r: bool)
        ensures
            r == (self.entries@.len() == 0),
    {
        self.entries.len() == 0
    }

    /// The remembered size of an entry whose modification time is now
    /// `mtime`, if it can still be trusted: touched since the scan, the
    /// number is about something else.
    pub fn get(&self, path: &str, mtime: u64) -> (r: Option<u64>)
        ensures
            match record_of(self.entries@, path@) {
                Some(rec) => if rec.mtime == mtime { r == Some(rec.bytes) } else { r is None },
                None => r is None,
            },
    {
        match lookup_record(&self.entries, path) {
            Some(rec) => if rec.mtime == mtime {
                Some(rec.bytes)
            } else {
                None
            },
            None => None,
        }
    }

    /// The remembered sizes for a list of entries with their modification
    /// times, in the same order.
    pub fn lookup(&self, entries: &Vec<(String, u64)>) -> (r: Vec<Option<u64>>)
        ensures
            r@.len() == entries@.len(),
            forall|i: int| 0 <= i < entries@.len() ==> #[trigger] r@[i] == match record_of(self.entries@, entries@[i].0@) {
                Some(rec) => if rec.mtime == entries@[i].1 { Some(rec.bytes) } else { None },
                None => None,
            },
    {
        let mut r: Vec<Option<u64>> = Vec::new();
        let mut i: usize = 0;
        while i < entries.len()
            invariant
                i <= entries@.len(),
                r@.len() == i,
                forall|k: int| 0 <= k < i ==> #[trigger] r@[k] == match record_of(self.entries@, entries@[k].0@) {
                    Some(rec) => if rec.mtime == entries@[k].1 { Some(rec.bytes) } else { None },
                    None => None,
                },
            decreases entries@.len() - i,
        {
            r.push(self.get(entries[i].0.as_str(), entries[i].1));
            i += 1;
        }
        r
    }
}

proof fn lemma_record_absent(entries: Seq<(String, Record)>, path: Seq<char>)
    requires
        record_of(entries, path) is None,
    ensures
        forall|i: int| 0 <= i < entries.len() ==> (#[trigger] entries[i]).0@ != path,
    decreases entries.len(),
{
    if entries.len() > 0 {
        lemma_record_absent(entries.drop_last(), path);
        assert forall|i: int| 0 <= i < entries.len() implies (#[trigger] entries[i]).0@ != path by {
            if i < entries.len() - 1 {
                assert(entries.drop_last()[i] == entries[i]);
            }
        }
    }
}

/// Whether a scan taken at `epoch` is too old to mean anything at `now`.
pub fn is_stale(epoch: u64, now: u64) -> (r: bool)
    ensures
        r == (now > epoch && now - epoch > FRESH_FOR),
{
    now.saturating_sub(epoch) > FRESH_FOR
}

/// The last scan as read back at `now`: dropped whole once it is stale.
pub fn fresh(sizes: Sizes, now: u64) -> (r: Sizes)
    ensures
        is_stale_spec(sizes.epoch, now) ==> r.entries@.len() == 0,
        !is_stale_spec(sizes.epoch, now) ==> r.epoch == sizes.epoch && r.entries@ == sizes.entries@,
{
    if is_stale(sizes.epoch, now) {
        Sizes::default()
    } else {
        sizes
    }
}

pub open spec fn is_stale_spec(epoch: u64, now: u64) -> bool {
    now > epoch && now - epoch > FRESH_FOR
}

} // verus!
