//! Operation journal: what was removed, when, and how to put it back.
//!
//! Every run that removes something is recorded. The record answers the only
//! question that matters after the fact — *what disappeared?* — and, when
//! the entries went to the trash rather than into the void, it is enough to
//! undo the run.

use vstd::prelude::*;
use crate::config::{parent, parent_of};
use crate::format::{tilde, tilde_spec};
use crate::sys::fsx::{home_join, join_spec, Disposal, Move, Removal};
use crate::text::{chars_eq, chars_of, decimal, push_decimal, push_str};

verus! {

/// How many runs are kept before the oldest are dropped.
pub const KEEP: usize = 200;

/// One recorded run.
#[derive(Debug, Clone)]
pub struct Run {
    /// Sortable identifier, also the file name: `20260918-230512`.
    pub id: String,
    /// When it happened.
    pub epoch: u64,
    /// The command line that caused it, without the global options.
    pub command: String,
    /// What was done to the entries.
    pub disposal: Disposal,
    /// Bytes removed for good.
    pub freed: u64,
    /// Bytes moved to the trash.
    pub trashed: u64,
    /// Entries removed.
    pub removed: usize,
    /// Where each trashed entry landed, so it can come back.
    pub moves: Vec<Move>,
}

impl Run {
    /// Whether the run can still be undone in principle: its entries went
    /// to the trash, and it knows where.
    pub fn reversible(&self) -> (r: bool)
        ensures
            r == (self.disposal == Disposal::Trash && self.moves@.len() > 0),
    {
        self.disposal.is_trash() && self.moves.len() > 0
    }
}

/// Directory holding the journal: under `XDG_STATE_HOME` when it is set and
/// not empty, under `~/.local/state` otherwise.
pub fn dir(xdg_state_home: Option<&str>, home: &str) -> (r: String)
    ensures
        match xdg_state_home {
            Some(base) if base@.len() > 0 => r@ == join_spec(base@, "detox-mac/journal"@),
            _ => r@ == join_spec(home@, ".local/state/detox-mac/journal"@),
        },
{
    match xdg_state_home {
        Some(base) => {
            if !base.is_empty() {
                return home_join(base, "detox-mac/journal");
            }
        },
        None => {},
    }
    home_join(home, ".local/state/detox-mac/journal")
}

fn copy_move(m: &Move) -> (r: Move)
    ensures
        r == *m,
{
    Move { from: m.from.clone(), to: m.to.clone(), bytes: m.bytes }
}

pub(crate) fn copy_moves(v: &Vec<Move>) -> (r: Vec<Move>)
    ensures
        r@ == v@,
{
    let mut r: Vec<Move> = Vec::new();
    let mut i: usize = 0;
    while i < v.len()
        invariant
            i <= v@.len(),
            r@ == v@.take(i as int),
        decreases v@.len() - i,
    {
        r.push(copy_move(&v[i]));
        assert(r@ =~= v@.take(i + 1));
        i += 1;
    }
    assert(v@.take(v@.len() as int) =~= v@);
    r
}

/// The record of a run, when it changed anything: a run that removed
/// nothing is not worth a file.
pub fn record(command: &str, disposal: Disposal, removal: &Removal, epoch: u64, id: &str) -> (r: Option<Run>)
    ensures
        removal.removed == 0 ==> r is None,
        removal.removed > 0 ==> (r matches Some(run) && run.id@ == id@ && run.epoch == epoch
            && run.command@ == command@ && run.disposal == disposal && run.freed == removal.freed
            && run.trashed == removal.trashed && run.removed == removal.removed && run.moves@
            == removal.moves@),
{
    if removal.removed == 0 {
        return None;
    }
    let mut i = String::new();
    push_str(&mut i, id);
    let mut c = String::new();
    push_str(&mut c, command);
    Some(Run {
        id: i,
        epoch,
        command: c,
        disposal,
        freed: removal.freed,
        trashed: removal.trashed,
        removed: removal.removed,
        moves: copy_moves(&removal.moves),
    })
}

/// Where the `n`th attempt to record a run goes: `<id>.json`, then
/// `<id>-2.json`, `<id>-3.json`… so that two runs within the same second do
/// not overwrite each other.
pub open spec fn candidate_spec(dir: Seq<char>, id: Seq<char>, n: nat) -> Seq<char> {
    if n <= 1 {
        join_spec(dir, id + ".json"@)
    } else {
        join_spec(dir, id + "-"@ + decimal(n) + ".json"@)
    }
}

/// The `n`th file name a run may be recorded under (up to 99 are tried).
pub fn candidate(dir: &str, id: &str, n: u32) -> (r: String)
    ensures
        r@ == candidate_spec(dir@, id@, n as nat),
{
    let mut name = String::new();
    push_str(&mut name, id);
    if n > 1 {
        push_str(&mut name, "-");
        push_decimal(&mut name, n as u64);
    }
    push_str(&mut name, ".json");
    home_join(dir, name.as_str())
}

/// Strict lexicographic order of two texts, character by character.
pub open spec fn text_less(a: Seq<char>, b: Seq<char>) -> bool
    decreases a.len(),
{
    if a.len() == 0 {
        b.len() > 0
    } else if b.len() == 0 {
        false
    } else if a[0] != b[0] {
        a[0] < b[0]
    } else {
        text_less(a.drop_first(), b.drop_first())
    }
}

pub fn less_text(a: &[char], b: &[char]) -> (r: bool)
    ensures
        r == text_less(a@, b@),
{
    let mut i: usize = 0;
    assert(a@.skip(0) =~= a@);
    assert(b@.skip(0) =~= b@);
    while i < a.len() && i < b.len() && a[i] == b[i]
        invariant
            i <= a@.len(),
            i <= b@.len(),
            text_less(a@, b@) == text_less(a@.skip(i as int), b@.skip(i as int)),
        decreases a@.len() - i,
    {
        assert(a@.skip(i as int).drop_first() =~= a@.skip(i + 1));
        assert(b@.skip(i as int).drop_first() =~= b@.skip(i + 1));
        i += 1;
    }
    if i == a.len() {
        i < b.len()
    } else if i == b.len() {
        false
    } else {
        a[i] < b[i]
    }
}

/// Whether run `a` is listed after run `b`: older, or as old with a smaller
/// identifier.
pub open spec fn listed_after(a: Run, b: Run) -> bool {
    a.epoch < b.epoch || (a.epoch == b.epoch && text_less(a.id@, b.id@))
}

fn after(a: &Run, b: &Run) -> (r: bool)
    ensures
        r == listed_after(*a, *b),
{
    a.epoch < b.epoch || (a.epoch == b.epoch && less_text(
        chars_of(a.id.as_str()).as_slice(),
        chars_of(b.id.as_str()).as_slice(),
    ))
}

/// Recorded runs, most recent first (by time, then by identifier): the
/// same runs, reordered.
pub fn list(runs: Vec<Run>) -> (r: Vec<Run>)
    ensures
        r@.to_multiset() == runs@.to_multiset(),
        forall|i: int, j: int| 0 <= i < j < r@.len() ==> !listed_after(r@[i], r@[j]),
        forall|i: int, j: int| 0 <= i < j < r@.len() ==> r@[i].epoch >= r@[j].epoch,
        forall|i: int, j: int| 0 <= i < j < r@.len() && r@[i].epoch == r@[j].epoch
            ==> !text_less(r@[i].id@, r@[j].id@),
{
    let ghost all = runs@;
    let mut input = runs;
    let mut out: Vec<Run> = Vec::new();
    let n = input.len();
    let mut k: usize = 0;
    assert(out@ =~= all.take(0));
    assert(input@ =~= all.skip(0));
    while k < n
        invariant
            k <= n,
            n == all.len(),
            input@ == all.skip(k as int),
            out@.to_multiset() == all.take(k as int).to_multiset(),
            forall|i: int, j: int| 0 <= i < j < out@.len() ==> !listed_after(out@[i], out@[j]),
        decreases n - k,
    {
        assert(input@[0] == all[k as int]);
        let x = input.remove(0);
        assert(input@ =~= all.skip(k + 1));
        let mut p: usize = 0;
        while p < out.len() && !after(&out[p], &x)
            invariant
                p <= out@.len(),
                forall|a: int| 0 <= a < p ==> !listed_after(#[trigger] out@[a], x),
            decreases out@.len() - p,
        {
            p += 1;
        }
        let ghost before = out@;
        out.insert(p, x);
        proof {
            assert(out@ == before.insert(p as int, x));
            assert(all.take(k + 1) =~= all.take(k as int).push(x));
            vstd::seq_lib::to_multiset_insert(before, p as int, x);
            vstd::seq_lib::to_multiset_build(all.take(k as int), x);
            if p < before.len() {
                lemma_text_less_total(before[p as int].id@, before[p as int].id@);
            }
            assert forall|i: int, j: int| 0 <= i < j < out@.len() implies !listed_after(out@[i], out@[j]) by {
                if j < p {
                    assert(out@[i] == before[i] && out@[j] == before[j]);
                } else if j == p {
                    assert(out@[i] == before[i]);
                } else if i < p {
                    assert(out@[i] == before[i] && out@[j] == before[j - 1]);
                    lemma_listed_after_chain(before[i], x, before[p as int], before[j - 1]);
                } else if i == p {
                    assert(out@[j] == before[j - 1]);
                    lemma_listed_after_chain2(x, before[p as int], before[j - 1]);
                } else {
                    assert(out@[i] == before[i - 1] && out@[j] == before[j - 1]);
                }
            }
        }
        k += 1;
    }
    assert(all.take(n as int) =~= all);
    assert forall|i: int, j: int| 0 <= i < j < out@.len() implies out@[i].epoch >= out@[j].epoch by {
        assert(!listed_after(out@[i], out@[j]));
    }
    assert forall|i: int, j: int| 0 <= i < j < out@.len() && out@[i].epoch == out@[j].epoch
        implies !text_less(out@[i].id@, out@[j].id@) by {
        assert(!listed_after(out@[i], out@[j]));
    }
    out
}

/// Undoing without naming a run undoes the most recent one: the first run of
/// the journal's listing is at least as recent as every other.
pub proof fn the_first_listed_run_is_the_latest(runs: Seq<Run>, r: Seq<Run>, k: int)
    requires
        r.to_multiset() == runs.to_multiset(),
        forall|i: int, j: int| 0 <= i < j < r.len() ==> !listed_after(r[i], r[j]),
        0 <= k < runs.len(),
    ensures
        r.len() > 0,
        r[0].epoch >= runs[k].epoch,
{
    assert(runs.to_multiset().count(runs[k]) > 0) by {
        runs.to_multiset_ensures();
    }
    r.to_multiset_ensures();
    assert(r.contains(runs[k]));
    let j = choose|j: int| 0 <= j < r.len() && r[j] == runs[k];
    if j > 0 {
        assert(!listed_after(r[0], r[j]));
    }
}

pub proof fn lemma_text_less_total(a: Seq<char>, b: Seq<char>)
    ensures
        a != b ==> text_less(a, b) || text_less(b, a),
        !(text_less(a, b) && text_less(b, a)),
    decreases a.len(),
{
    if a.len() > 0 && b.len() > 0 && a[0] == b[0] {
        lemma_text_less_total(a.drop_first(), b.drop_first());
        if a != b {
            assert(a =~= seq![a[0]] + a.drop_first());
            assert(b =~= seq![b[0]] + b.drop_first());
        }
    } else if a.len() == 0 && b.len() == 0 {
        assert(a =~= b);
    }
}

pub proof fn lemma_text_less_trans(a: Seq<char>, b: Seq<char>, c: Seq<char>)
    requires
        !text_less(b, a),
        !text_less(c, b),
    ensures
        !text_less(c, a),
    decreases a.len(),
{
    if a.len() > 0 && b.len() > 0 && c.len() > 0 && a[0] == b[0] && b[0] == c[0] {
        lemma_text_less_trans(a.drop_first(), b.drop_first(), c.drop_first());
    }
}

proof fn lemma_listed_after_chain(w: Run, x: Run, y: Run, z: Run)
    requires
        !listed_after(w, x),
        listed_after(y, x),
        !listed_after(y, z),
    ensures
        !listed_after(w, z),
{
    lemma_listed_after_chain2(x, y, z);
    if w.epoch == z.epoch {
        lemma_text_less_trans(z.id@, x.id@, w.id@);
    }
}

proof fn lemma_listed_after_chain2(x: Run, y: Run, z: Run)
    requires
        listed_after(y, x),
        !listed_after(y, z),
    ensures
        !listed_after(x, z),
{
    lemma_text_less_total(x.id@, y.id@);
    lemma_text_less_total(y.id@, z.id@);
    if x.epoch == z.epoch && y.epoch == x.epoch {
        if text_less(x.id@, z.id@) {
            lemma_text_less_total(x.id@, z.id@);
            lemma_text_less_trans(z.id@, y.id@, x.id@);
        }
    }
}



/// What the library reads of a run.
pub open spec fn run_view(r: Run) -> (Seq<char>, u64, Seq<char>, Disposal, u64, u64, usize, Seq<Move>) {
    (r.id@, r.epoch, r.command@, r.disposal, r.freed, r.trashed, r.removed, r.moves@)
}

fn copy_run(r: &Run) -> (c: Run)
    ensures
        run_view(c) == run_view(*r),
{
    Run {
        id: r.id.clone(),
        epoch: r.epoch,
        command: r.command.clone(),
        disposal: r.disposal,
        freed: r.freed,
        trashed: r.trashed,
        removed: r.removed,
        moves: copy_moves(&r.moves),
    }
}

/// Finds one run of a list by identifier, or the first one (the most recent
/// in a list from `list`).
pub fn find(runs: &Vec<Run>, id: Option<&str>) -> (r: Option<Run>)
    ensures
        id is None ==> (if runs@.len() == 0 {
            r is None
        } else {
            r matches Some(run) && run_view(run) == run_view(runs@[0])
        }),
        id matches Some(w) ==> match r {
            Some(run) => exists|i: int| 0 <= i < runs@.len() && run_view(runs@[i]) == run_view(run) && run.id@ == w@
                && forall|j: int| 0 <= j < i ==> (#[trigger] runs@[j]).id@ != w@,
            None => forall|j: int| 0 <= j < runs@.len() ==> (#[trigger] runs@[j]).id@ != w@,
        },
{
    match id {
        None => {
            if runs.len() == 0 {
                None
            } else {
                Some(copy_run(&runs[0]))
            }
        },
        Some(wanted) => {
            let w = chars_of(wanted);
            let mut i: usize = 0;
            while i < runs.len()
                invariant
                    i <= runs@.len(),
                    id == Some(wanted),
                    w@ == wanted@,
                    forall|j: int| 0 <= j < i ==> (#[trigger] runs@[j]).id@ != wanted@,
                decreases runs@.len() - i,
            {
                if chars_eq(chars_of(runs[i].id.as_str()).as_slice(), w.as_slice()) {
                    let c = copy_run(&runs[i]);
                    assert(run_view(runs@[i as int]) == run_view(c));
                    return Some(c);
                }
                i += 1;
            }
            None
        },
    }
}

/// Texts in ascending order (character by character): the same texts,
/// reordered.
pub fn sort_texts(texts: Vec<String>) -> (r: Vec<String>)
    ensures
        r@.to_multiset() == texts@.to_multiset(),
        r@.len() == texts@.len(),
        forall|i: int, j: int| 0 <= i < j < r@.len() ==> !text_less(r@[j]@, r@[i]@),
{
    let ghost all = texts@;
    let mut input = texts;
    let mut out: Vec<String> = Vec::new();
    let n = input.len();
    let mut k: usize = 0;
    assert(input@ =~= all.skip(0));
    assert(out@ =~= all.take(0));
    while k < n
        invariant
            k <= n,
            n == all.len(),
            input@ == all.skip(k as int),
            out@.to_multiset() == all.take(k as int).to_multiset(),
            out@.len() == k,
            forall|i: int, j: int| 0 <= i < j < out@.len() ==> !text_less(out@[j]@, out@[i]@),
        decreases n - k,
    {
        assert(input@[0] == all[k as int]);
        let x = input.remove(0);
        assert(input@ =~= all.skip(k + 1));
        let xc = chars_of(x.as_str());
        let mut p: usize = 0;
        while p < out.len() && !less_text(xc.as_slice(), chars_of(out[p].as_str()).as_slice())
            invariant
                p <= out@.len(),
                xc@ == x@,
                forall|a: int| 0 <= a < p ==> !text_less(x@, (#[trigger] out@[a])@),
            decreases out@.len() - p,
        {
            p += 1;
        }
        let ghost before = out@;
        out.insert(p, x);
        proof {
            assert(out@ == before.insert(p as int, x));
            assert(all.take(k + 1) =~= all.take(k as int).push(x));
            vstd::seq_lib::to_multiset_insert(before, p as int, x);
            vstd::seq_lib::to_multiset_build(all.take(k as int), x);
            assert forall|i: int, j: int| 0 <= i < j < out@.len() implies !text_less(out@[j]@, out@[i]@) by {
                if j < p {
                    assert(out@[i] == before[i] && out@[j] == before[j]);
                } else if j == p {
                    assert(out@[i] == before[i]);
                } else if i < p {
                    assert(out@[i] == before[i] && out@[j] == before[j - 1]);
                    lemma_text_less_total(x@, before[p as int]@);
                    if j - 1 > p {
                        lemma_text_less_trans(x@, before[p as int]@, before[j - 1]@);
                    }
                    lemma_text_less_trans(before[i]@, x@, before[j - 1]@);
                } else if i == p {
                    assert(out@[j] == before[j - 1]);
                    lemma_text_less_total(x@, before[p as int]@);
                    if j - 1 > p {
                        lemma_text_less_total(before[p as int]@, before[j - 1]@);
                        lemma_text_less_trans(x@, before[p as int]@, before[j - 1]@);
                    }
                } else {
                    assert(out@[i] == before[i - 1] && out@[j] == before[j - 1]);
                }
            }
        }
        k += 1;
    }
    assert(all.take(n as int) =~= all);
    out
}

/// The journal files to drop once there are more than `KEEP`: the oldest,
/// that is the first in name order.
pub fn prune_list(files: Vec<String>) -> (r: Vec<String>)
    ensures
        files@.len() <= KEEP ==> r@.len() == 0,
        files@.len() > KEEP ==> r@.len() == files@.len() - KEEP,
        forall|i: int, j: int| 0 <= i < j < r@.len() ==> !text_less(r@[j]@, r@[i]@),
        forall|i: int| 0 <= i < r@.len() ==> files@.contains(#[trigger] r@[i]),
{
    if files.len() <= KEEP {
        return Vec::new();
    }
    let ghost all = files@;
    let n = files.len();
    let mut out = sort_texts(files);
    proof {
        assert forall|i: int| 0 <= i < out@.len() implies all.contains(#[trigger] out@[i]) by {
            vstd::seq_lib::to_multiset_contains(out@, out@[i]);
            vstd::seq_lib::to_multiset_contains(all, out@[i]);
        }
    }
    out.truncate(n - KEEP);
    out
}

/// What an undo did.
#[derive(Debug, Clone)]
pub struct Restored {
    pub restored: usize,
    pub bytes: u64,
    /// Entries whose original place is taken again — never overwritten.
    pub occupied: usize,
    /// Entries no longer in the trash: the user emptied it.
    pub gone: usize,
    pub errors: Vec<String>,
}

/// What became of an attempt to move an entry back.
#[derive(Debug, Clone)]
pub enum Attempt {
    /// Nothing was tried.
    NotTried,
    /// Moved back.
    Moved,
    /// The original parent directory could not be created.
    ParentFailed(String),
    /// The move itself failed.
    RenameFailed(String),
}

/// What was found of one trashed entry, and what trying to restore it gave.
#[derive(Debug, Clone)]
pub struct Found {
    /// The entry is still in the trash.
    pub trashed_exists: bool,
    /// Something is at its original place again.
    pub original_exists: bool,
    pub attempt: Attempt,
}

/// An entry is moved back only when it is still in the trash and its
/// original place is free: nothing is ever overwritten.
pub fn restorable(trashed_exists: bool, original_exists: bool) -> (r: bool)
    ensures
        r == (trashed_exists && !original_exists),
{
    trashed_exists && !original_exists
}

/// Counts and errors of an undo over its first `n` entries: restored,
/// bytes (held at `u64::MAX`), occupied, gone, errors.
pub open spec fn undo_spec(moves: Seq<Move>, found: Seq<Found>, dry_run: bool, home: Seq<char>, n: int) -> (nat, u64, nat, nat, Seq<Seq<char>>)
    decreases n,
{
    if n <= 0 {
        (0, 0, 0, 0, Seq::empty())
    } else {
        let a = undo_spec(moves, found, dry_run, home, n - 1);
        let m = moves[n - 1];
        let f = found[n - 1];
        if !f.trashed_exists {
            (a.0, a.1, a.2, a.3 + 1, a.4)
        } else if f.original_exists {
            (a.0, a.1, a.2 + 1, a.3, a.4)
        } else if dry_run {
            (a.0 + 1, crate::task::docker::sat_add(a.1, m.bytes), a.2, a.3, a.4)
        } else {
            match f.attempt {
                Attempt::Moved => (a.0 + 1, crate::task::docker::sat_add(a.1, m.bytes), a.2, a.3, a.4),
                Attempt::ParentFailed(e) => (a.0, a.1, a.2, a.3, a.4.push(tilde_spec(
                    match parent_of(m.from@) {
                        Some(p) => p,
                        None => Seq::empty(),
                    },
                    home,
                ) + ": "@ + e@)),
                Attempt::RenameFailed(e) => (a.0, a.1, a.2, a.3, a.4.push(tilde_spec(m.from@, home) + ": "@ + e@)),
                Attempt::NotTried => a,
            }
        }
    }
}

/// Puts a run's entries back where they came from: `found[i]` tells what
/// was found of entry `i` and, when it was `restorable` and this is not a
/// simulation, what moving it back gave.
pub fn undo(run: &Run, dry_run: bool, found: &Vec<Found>, home: &str) -> (r: Restored)
    requires
        found@.len() == run.moves@.len(),
    ensures
        ({
            let u = undo_spec(run.moves@, found@, dry_run, home@, found@.len() as int);
            &&& r.restored as nat == u.0
            &&& r.bytes == u.1
            &&& r.occupied as nat == u.2
            &&& r.gone as nat == u.3
            &&& crate::task::texts(r.errors@) == u.4
        }),
{
    let mut result = Restored { restored: 0, bytes: 0, occupied: 0, gone: 0, errors: Vec::new() };
    let mut i: usize = 0;
    while i < found.len()
        invariant
            i <= found@.len(),
            found@.len() == run.moves@.len(),
            result.restored <= i && result.occupied <= i && result.gone <= i,
            ({
                let u = undo_spec(run.moves@, found@, dry_run, home@, i as int);
                &&& result.restored as nat == u.0
                &&& result.bytes == u.1
                &&& result.occupied as nat == u.2
                &&& result.gone as nat == u.3
                &&& crate::task::texts(result.errors@) == u.4
            }),
        decreases found@.len() - i,
    {
        let f = &found[i];
        let m = &run.moves[i];
        let ghost before = crate::task::texts(result.errors@);
        if !f.trashed_exists {
            result.gone = result.gone + 1;
        } else if f.original_exists {
            result.occupied = result.occupied + 1;
        } else if dry_run {
            result.restored = result.restored + 1;
            result.bytes = result.bytes.saturating_add(m.bytes);
        } else {
            match &f.attempt {
                Attempt::Moved => {
                    result.restored = result.restored + 1;
                    result.bytes = result.bytes.saturating_add(m.bytes);
                },
                Attempt::ParentFailed(e) => {
                    let p = match parent(m.from.as_str()) {
                        Some(p) => p,
                        None => String::new(),
                    };
                    let mut line = tilde(p.as_str(), home);
                    push_str(&mut line, ": ");
                    push_str(&mut line, e.as_str());
                    result.errors.push(line);
                    assert(crate::task::texts(result.errors@) =~= before.push(line@));
                },
                Attempt::RenameFailed(e) => {
                    let mut line = tilde(m.from.as_str(), home);
                    push_str(&mut line, ": ");
                    push_str(&mut line, e.as_str());
                    result.errors.push(line);
                    assert(crate::task::texts(result.errors@) =~= before.push(line@));
                },
                Attempt::NotTried => {},
            }
        }
        i += 1;
    }
    result
}

/// Nothing is ever overwritten: when every entry still in the trash has
/// something at its original place again, an undo restores nothing and
/// reports each such entry as occupied.
pub proof fn undo_never_overwrites(moves: Seq<Move>, found: Seq<Found>, dry_run: bool, home: Seq<char>, n: int)
    requires
        0 <= n <= found.len(),
        found.len() == moves.len(),
        forall|i: int| 0 <= i < n && (#[trigger] found[i]).trashed_exists ==> found[i].original_exists,
    ensures
        undo_spec(moves, found, dry_run, home, n).0 == 0,
        undo_spec(moves, found, dry_run, home, n).2 + undo_spec(moves, found, dry_run, home, n).3 == n,
    decreases n,
{
    if n > 0 {
        undo_never_overwrites(moves, found, dry_run, home, n - 1);
    }
}
} // verus!
