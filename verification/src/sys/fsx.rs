//! Filesystem decisions: what a deletion does, where the trash is, how
//! removals add up.

use vstd::prelude::*;
use crate::config::Excludes;
use crate::text::{chars_of, has_suffix, push_char, push_chars, push_str, split, split_chars, string_of, views};

verus! {

/// What a deletion actually does.
#[derive(Debug, Clone, Copy, PartialEq, Eq, Structural)]
pub enum Disposal {
    /// Move to the trash: recoverable, but space is only freed once the trash
    /// is emptied.
    Trash,
    /// Remove for good.
    Purge,
}

impl Disposal {
    pub fn is_trash(self) -> (r: bool)
        ensures
            r == (self == Disposal::Trash),
    {
        match self {
            Disposal::Trash => true,
            Disposal::Purge => false,
        }
    }
}


/// `Path::new(base).join(suffix)` for a relative suffix: a `/` goes between
/// them unless the base is empty or already ends with one.
pub open spec fn join_spec(base: Seq<char>, suffix: Seq<char>) -> Seq<char> {
    if suffix.len() > 0 && suffix[0] == '/' {
        suffix
    } else if base.len() == 0 || base.last() == '/' {
        base + suffix
    } else {
        base + seq!['/'] + suffix
    }
}

/// Joins a path and a suffix the way `Path::join` does.
pub fn join(base: &str, suffix: &str) -> (r: String)
    ensures
        r@ == join_spec(base@, suffix@),
{
    let b = chars_of(base);
    let s = chars_of(suffix);
    if s.len() > 0 && s[0] == '/' {
        return string_of(s.as_slice());
    }
    let mut out = string_of(b.as_slice());
    if !(b.len() == 0 || b[b.len() - 1] == '/') {
        push_char(&mut out, '/');
    }
    push_chars(&mut out, s.as_slice());
    out
}

/// Path inside the home directory: `home_join(home, "Library/Caches")`.
pub fn home_join(home: &str, suffix: &str) -> (r: String)
    ensures
        r@ == join_spec(home@, suffix@),
{
    join(home, suffix)
}

/// Where the `n`th attempt to put `name` in the trash `dir` goes: the name
/// itself, then `name 2`, `name 3`… so that nothing already in the trash is
/// overwritten.
pub open spec fn trash_name_spec(dir: Seq<char>, name: Seq<char>, n: nat) -> Seq<char> {
    if n <= 1 {
        join_spec(dir, name)
    } else {
        join_spec(dir, name + " "@ + crate::text::decimal(n))
    }
}

/// The `n`th place an entry called `name` may take in the trash `dir`.
pub fn trash_name(dir: &str, name: &str, n: u64) -> (r: String)
    ensures
        r@ == trash_name_spec(dir@, name@, n as nat),
{
    let mut full = String::new();
    push_str(&mut full, name);
    if n > 1 {
        push_str(&mut full, " ");
        crate::text::push_decimal(&mut full, n);
    }
    join(dir, full.as_str())
}

/// How one removal run must behave.
#[derive(Debug, Clone, Copy)]
pub struct Policy<'a> {
    /// Measure only, change nothing.
    pub dry_run: bool,
    pub disposal: Disposal,
    /// Paths that must survive whatever happens.
    pub excludes: &'a Excludes,
}

impl<'a> Policy<'a> {
    pub fn new(dry_run: bool, disposal: Disposal, excludes: &'a Excludes) -> (r: Self)
        ensures
            r.dry_run == dry_run,
            r.disposal == disposal,
            r.excludes == excludes,
    {
        Policy { dry_run, disposal, excludes }
    }

    /// A policy that always removes for good — for the trash itself, and for
    /// the throwaway files that trashing would only pile up.
    pub fn purging(self) -> (r: Self)
        ensures
            r.dry_run == self.dry_run,
            r.disposal == Disposal::Purge,
            r.excludes == self.excludes,
    {
        Policy { dry_run: self.dry_run, disposal: Disposal::Purge, excludes: self.excludes }
    }
}

/// One entry moved to the trash, kept so the move can be undone.
#[derive(Debug, Clone)]
pub struct Move {
    pub from: String,
    pub to: String,
    pub bytes: u64,
}

/// Outcome of a deletion.
#[derive(Debug, Clone)]
pub struct Removal {
    /// Bytes removed for good (or that would be, in dry-run mode).
    pub freed: u64,
    /// Bytes moved to the trash: recoverable, and not yet reclaimed.
    pub trashed: u64,
    /// Number of top-level entries removed.
    pub removed: usize,
    /// Entries left alone because the configuration protects them.
    pub excluded: usize,
    /// Entries that could not be removed.
    pub errors: Vec<String>,
    /// Trash moves, for the journal.
    pub moves: Vec<Move>,
}

impl Default for Removal {
    fn default() -> (r: Self)
        ensures
            r.freed == 0 && r.trashed == 0 && r.removed == 0 && r.excluded == 0,
            r.errors@.len() == 0,
            r.moves@.len() == 0,
    {
        Removal { freed: 0, trashed: 0, removed: 0, excluded: 0, errors: Vec::new(), moves: Vec::new() }
    }
}

impl Removal {
    /// Space the run accounted for, wherever it went.
    pub fn total(&self) -> (r: u64)
        requires
            self.freed + self.trashed <= u64::MAX,
        ensures
            r == self.freed + self.trashed,
    {
        self.freed + self.trashed
    }

    /// Adds another run's figures and lists to this one.
    pub fn merge(&mut self, other: Removal)
        requires
            old(self).freed + other.freed <= u64::MAX,
            old(self).trashed + other.trashed <= u64::MAX,
            old(self).removed + other.removed <= usize::MAX,
            old(self).excluded + other.excluded <= usize::MAX,
        ensures
            final(self).freed == old(self).freed + other.freed,
            final(self).trashed == old(self).trashed + other.trashed,
            final(self).removed == old(self).removed + other.removed,
            final(self).excluded == old(self).excluded + other.excluded,
            final(self).errors@ == old(self).errors@ + other.errors@,
            final(self).moves@ == old(self).moves@ + other.moves@,
    {
        self.freed = self.freed + other.freed;
        self.trashed = self.trashed + other.trashed;
        self.removed = self.removed + other.removed;
        self.excluded = self.excluded + other.excluded;
        let mut errors = other.errors;
        self.errors.append(&mut errors);
        let mut moves = other.moves;
        self.moves.append(&mut moves);
    }

    /// Accounts for one entry that went, the way the policy sent it: freed
    /// when purged, trashed (with where it landed) otherwise.
    pub fn record(&mut self, from: &str, destination: Option<String>, bytes: u64, disposal: Disposal)
        requires
            old(self).freed + bytes <= u64::MAX,
            old(self).trashed + bytes <= u64::MAX,
            old(self).removed < usize::MAX,
            disposal == Disposal::Trash ==> destination is Some,
        ensures
            final(self).removed == old(self).removed + 1,
            final(self).excluded == old(self).excluded,
            final(self).errors@ == old(self).errors@,
            disposal == Disposal::Purge ==> final(self).freed == old(self).freed + bytes
                && final(self).trashed == old(self).trashed && final(self).moves@ == old(self).moves@,
            disposal == Disposal::Trash ==> final(self).trashed == old(self).trashed + bytes
                && final(self).freed == old(self).freed && final(self).moves@.len() == old(self).moves@.len() + 1
                && final(self).moves@.last().from@ == from@ && final(self).moves@.last().to@
                == destination.unwrap()@ && final(self).moves@.last().bytes == bytes
                && final(self).moves@.drop_last() == old(self).moves@,
    {
        match disposal {
            Disposal::Purge => {
                self.freed = self.freed + bytes;
            },
            Disposal::Trash => {
                let to = match destination {
                    Some(d) => d,
                    None => String::new(),
                };
                let mut f = String::new();
                push_str(&mut f, from);
                self.trashed = self.trashed + bytes;
                self.moves.push(Move { from: f, to, bytes });
            },
        }
        self.removed = self.removed + 1;
    }
}

/// The sentence to show when directories could not be read.
pub fn full_disk_access_hint() -> (r: &'static str)
    ensures
        r@ == "grant Full Disk Access to your terminal in System Settings › Privacy & Security"@,
{
    "grant Full Disk Access to your terminal in System Settings › Privacy & Security"
}

/// The trash that serves a path: on `/Volumes/<name>/…` the volume's own
/// `.Trashes/<uid>`, anywhere else the user's `~/.Trash`.
pub open spec fn trash_dir_spec(path: Seq<char>, home: Seq<char>, uid: u32) -> Seq<char> {
    let parts = split(path, '/');
    if parts.len() >= 3 && parts[0].len() == 0 && parts[1] == "Volumes"@ && parts[2].len() > 0 {
        "/Volumes/"@ + parts[2] + "/.Trashes/"@ + crate::text::decimal(uid as nat)
    } else {
        join_spec(home, ".Trash"@)
    }
}

/// The trash that serves a given path: the user's own, or the one on the
/// volume the path lives on — moving across volumes would fail.
pub fn trash_dir_for(path: &str, home: &str, uid: u32) -> (r: String)
    ensures
        r@ == trash_dir_spec(path@, home@, uid),
{
    let p = chars_of(path);
    let parts = split_chars(p.as_slice(), '/');
    if parts.len() >= 3 && parts[0].len() == 0 && crate::text::chars_eq(
        parts[1].as_slice(),
        chars_of("Volumes").as_slice(),
    ) && parts[2].len() > 0 {
        let mut out = String::new();
        push_str(&mut out, "/Volumes/");
        push_chars(&mut out, parts[2].as_slice());
        push_str(&mut out, "/.Trashes/");
        crate::text::push_decimal(&mut out, uid as u64);
        out
    } else {
        home_join(home, ".Trash")
    }
}


// ── measurement ────────────────────────────────────────────────────────────

/// Bytes a file really occupies: its allocated 512-byte blocks, so sparse and
/// transparently compressed files are not overstated. Held at the largest
/// `u64`.
pub fn occupied(blocks: u64) -> (r: u64)
    ensures
        r == (if blocks * 512 <= u64::MAX { (blocks * 512) as u64 } else { u64::MAX }),
{
    if blocks <= u64::MAX / 512 {
        blocks * 512
    } else {
        u64::MAX
    }
}

/// Whether a path is an iCloud placeholder rather than a real file: the
/// file system says its content is elsewhere (`SF_DATALESS`), or it is the
/// visible placeholder of an evicted file, `.name.ext.icloud`.
pub open spec fn is_evicted_spec(path: Seq<char>, dataless: bool) -> bool {
    dataless || (crate::task::scan::extension_spec(path) == Some("icloud"@)
        && crate::text::has_prefix(crate::task::ram::file_name_spec(path), seq!['.']))
}

/// Whether a path is an iCloud placeholder. It takes no space, so counting
/// it would inflate every total — and deleting it would remove the real file
/// from iCloud, on every device.
pub fn is_evicted(path: &str, dataless: bool) -> (r: bool)
    ensures
        r == is_evicted_spec(path@, dataless),
{
    if dataless {
        return true;
    }
    let dot: Vec<char> = vec!['.'];
    assert(dot@ =~= seq!['.']);
    match crate::task::scan::extension(path) {
        None => false,
        Some(e) => crate::text::chars_eq(chars_of(e.as_str()).as_slice(), chars_of("icloud").as_slice())
            && crate::text::starts_with(chars_of(crate::task::ram::file_name(path).as_str()).as_slice(), dot.as_slice()),
    }
}

/// Lexicographic order of `(device, inode)` pairs.
pub open spec fn pair_less(a: (u64, u64), b: (u64, u64)) -> bool {
    a.0 < b.0 || (a.0 == b.0 && a.1 < b.1)
}

/// The multiply-linked files already counted, by `(device, inode)`: what
/// makes a file linked from two places count once.
#[derive(Debug, Clone)]
pub struct Counted {
    keys: Vec<(u64, u64)>,
}

impl View for Counted {
    type V = Set<(u64, u64)>;

    closed spec fn view(&self) -> Set<(u64, u64)> {
        self.keys@.to_set()
    }
}

impl Counted {
    /// Kept sorted and without repetition, which is what makes a lookup a
    /// binary search.
    pub closed spec fn wf(&self) -> bool {
        forall|i: int, j: int| 0 <= i < j < self.keys@.len() ==> pair_less(self.keys@[i], self.keys@[j])
    }

    /// Nothing counted yet.
    pub fn new() -> (r: Self)
        ensures
            r.wf(),
            r@ == Set::<(u64, u64)>::empty(),
    {
        let r = Counted { keys: Vec::new() };
        assert(r.keys@.to_set() =~= Set::<(u64, u64)>::empty());
        r
    }

    /// Counts a file; `true` when it had not been counted before.
    pub fn insert(&mut self, dev: u64, ino: u64) -> (r: bool)
        requires
            old(self).wf(),
        ensures
            final(self).wf(),
            r == !old(self)@.contains((dev, ino)),
            final(self)@ == old(self)@.insert((dev, ino)),
    {
        let k = (dev, ino);
        let mut lo: usize = 0;
        let mut hi: usize = self.keys.len();
        while lo < hi
            invariant
                self.wf(),
                k == (dev, ino),
                0 <= lo <= hi <= self.keys@.len(),
                forall|i: int| 0 <= i < lo ==> pair_less(#[trigger] self.keys@[i], k),
                forall|i: int| hi <= i < self.keys@.len() ==> !pair_less(#[trigger] self.keys@[i], k),
            decreases hi - lo,
        {
            let mid = lo + (hi - lo) / 2;
            let m = self.keys[mid];
            assert(m == self.keys@[mid as int]);
            if m.0 < dev || (m.0 == dev && m.1 < ino) {
                assert(pair_less(self.keys@[mid as int], k));
                assert forall|i: int| 0 <= i < mid + 1 implies pair_less(#[trigger] self.keys@[i], k) by {
                    if i < mid {
                        assert(pair_less(self.keys@[i], self.keys@[mid as int]));
                    }
                }
                lo = mid + 1;
            } else {
                assert(!pair_less(self.keys@[mid as int], k));
                assert forall|i: int| mid <= i < self.keys@.len() implies !pair_less(#[trigger] self.keys@[i], k) by {
                    if i > mid {
                        assert(pair_less(self.keys@[mid as int], self.keys@[i]));
                    }
                }
                hi = mid;
            }
        }
        let ghost old_keys = self.keys@;
        if lo < self.keys.len() && self.keys[lo].0 == dev && self.keys[lo].1 == ino {
            assert(old_keys.to_set().contains(k)) by {
                assert(old_keys[lo as int] == k);
            }
            assert(old_keys.to_set().insert(k) =~= old_keys.to_set());
            return false;
        }
        proof {
            assert(!old_keys.to_set().contains(k)) by {
                if old_keys.contains(k) {
                    let x = choose|x: int| 0 <= x < old_keys.len() && old_keys[x] == k;
                    if x < lo {
                        assert(pair_less(old_keys[x], k));
                    } else if x > lo {
                        assert(pair_less(old_keys[lo as int], old_keys[x]));
                        assert(!pair_less(old_keys[lo as int], k));
                    }
                }
            }
        }
        self.keys.insert(lo, k);
        proof {
            assert(self.keys@ =~= old_keys.insert(lo as int, k));
            assert forall|i: int, j: int| 0 <= i < j < self.keys@.len() implies pair_less(self.keys@[i], self.keys@[j]) by {
                if j < lo {
                } else if i < lo && j == lo {
                } else if i < lo {
                    assert(self.keys@[j] == old_keys[j - 1]);
                    assert(pair_less(old_keys[i], k));
                } else if i == lo {
                    assert(self.keys@[j] == old_keys[j - 1]);
                    assert(!pair_less(old_keys[j - 1], k));
                    assert(old_keys[j - 1] != k);
                } else {
                    assert(self.keys@[i] == old_keys[i - 1]);
                    assert(self.keys@[j] == old_keys[j - 1]);
                }
            }
            assert(self.keys@.to_set() =~= old_keys.to_set().insert(k)) by {
                assert forall|x: (u64, u64)| self.keys@.contains(x) <==> old_keys.contains(x) || x == k by {
                    if self.keys@.contains(x) {
                        let y = choose|y: int| 0 <= y < self.keys@.len() && self.keys@[y] == x;
                        if y < lo {
                            assert(old_keys[y] == x);
                        } else if y > lo {
                            assert(old_keys[y - 1] == x);
                        }
                    }
                    if old_keys.contains(x) {
                        let y = choose|y: int| 0 <= y < old_keys.len() && old_keys[y] == x;
                        if y < lo {
                            assert(self.keys@[y] == x);
                        } else {
                            assert(self.keys@[y + 1] == x);
                        }
                    }
                    if x == k {
                        assert(self.keys@[lo as int] == x);
                    }
                }
            }
        }
        true
    }
}

/// How many unreadable paths a measurement keeps the detail of.
pub const UNREADABLE_KEPT: usize = 50;

/// Accumulates a measurement across one or more trees.
#[derive(Debug, Clone)]
pub struct Sizer {
    /// Paths that could not be read, and why (the first fifty).
    pub unreadable: Vec<String>,
    /// How many could not be read for want of permission.
    pub denied: usize,
    /// Files that live in iCloud and not on this disk.
    pub evicted: usize,
}

/// What the file system said of one entry.
#[derive(Debug, Clone)]
pub enum Meta {
    /// It could not be read: a permission problem or another one.
    Unreadable { denied: bool, message: String },
    /// A file (or a link, never followed).
    File { dataless: bool, nlink: u64, dev: u64, ino: u64, blocks: u64 },
    /// A directory, with the blocks of the directory itself.
    Dir { blocks: u64 },
    /// A directory whose entries could not be listed.
    Unlisted { denied: bool, message: String },
}

/// `a + b`, held at `usize::MAX`.
pub open spec fn sat_usize(a: usize, b: usize) -> usize {
    if a + b > usize::MAX {
        usize::MAX
    } else {
        (a + b) as usize
    }
}

/// The list with as many of the extra lines as fit under the cap.
pub open spec fn capped(kept: Seq<Seq<char>>, extra: Seq<Seq<char>>) -> Seq<Seq<char>> {
    if kept.len() >= 50 {
        kept
    } else if kept.len() + extra.len() <= 50 {
        kept + extra
    } else {
        kept + extra.take(50 - kept.len())
    }
}

impl Sizer {
    /// Nothing measured yet.
    pub fn new() -> (r: Self)
        ensures
            r.unreadable@.len() == 0,
            r.denied == 0,
            r.evicted == 0,
    {
        Sizer { unreadable: Vec::new(), denied: 0, evicted: 0 }
    }

    /// Folds another sizer's findings in: counts added, and its unreadable
    /// paths kept as long as there is room.
    pub fn absorb(&mut self, other: Sizer)
        ensures
            final(self).denied == sat_usize(old(self).denied, other.denied),
            final(self).evicted == sat_usize(old(self).evicted, other.evicted),
            crate::task::texts(final(self).unreadable@) == capped(crate::task::texts(old(self).unreadable@), crate::task::texts(other.unreadable@)),
    {
        self.denied = self.denied.saturating_add(other.denied);
        self.evicted = self.evicted.saturating_add(other.evicted);
        let ghost start = crate::task::texts(self.unreadable@);
        let ghost extra = crate::task::texts(other.unreadable@);
        let ghost denied = self.denied;
        let ghost evicted = self.evicted;
        let mut i: usize = 0;
        while i < other.unreadable.len()
            invariant
                self.denied == denied,
                self.evicted == evicted,
                i <= other.unreadable@.len(),
                extra == crate::task::texts(other.unreadable@),
                crate::task::texts(self.unreadable@) == capped(start, extra.take(i as int)),
            decreases other.unreadable@.len() - i,
        {
            if self.unreadable.len() < UNREADABLE_KEPT {
                let ghost before = crate::task::texts(self.unreadable@);
                self.unreadable.push(other.unreadable[i].clone());
                assert(crate::task::texts(self.unreadable@) =~= before.push(extra[i as int]));
            }
            proof {
                if start.len() >= 50 {
                } else if start.len() + i + 1 <= 50 {
                    assert(extra.take(i + 1) =~= extra.take(i as int).push(extra[i as int]));
                    assert(capped(start, extra.take(i + 1)) =~= capped(start, extra.take(i as int)).push(extra[i as int]));
                } else {
                    assert(extra.take(i + 1).take(50 - start.len()) =~= extra.take(i as int).take(50 - start.len())
                        || start.len() + i < 50);
                    if start.len() + i < 50 {
                        assert(extra.take(i + 1).take(50 - start.len()) =~= extra.take(i + 1));
                        assert(extra.take(i + 1) =~= extra.take(i as int).push(extra[i as int]));
                    }
                }
            }
            i += 1;
        }
        assert(extra.take(other.unreadable@.len() as int) =~= extra);
    }

    /// Notes a path that could not be read.
    pub fn note(&mut self, path: &str, denied: bool, message: &str, home: &str)
        ensures
            final(self).denied == (if denied { sat_usize(old(self).denied, 1) } else { old(self).denied }),
            final(self).evicted == old(self).evicted,
            crate::task::texts(final(self).unreadable@) == capped(
                crate::task::texts(old(self).unreadable@),
                seq![crate::format::tilde_spec(path@, home@) + ": "@ + message@],
            ),
    {
        if denied {
            self.denied = self.denied.saturating_add(1);
        }
        if self.unreadable.len() < UNREADABLE_KEPT {
            let mut line = crate::format::tilde(path, home);
            push_str(&mut line, ": ");
            push_str(&mut line, message);
            let ghost before = crate::task::texts(self.unreadable@);
            self.unreadable.push(line);
            assert(crate::task::texts(self.unreadable@) =~= before + seq![crate::format::tilde_spec(path@, home@) + ": "@ + message@]);
        }
    }

    /// What one entry adds to a measurement by itself, and whether its
    /// contents are to be measured too.
    ///
    /// A file counts its blocks once however many hard links point at it,
    /// and not at all when it is not really here; a directory counts its own
    /// blocks and is descended into; what cannot be read counts nothing and
    /// is noted.
    pub fn size_of(&mut self, path: &str, meta: Meta, counted: &mut Counted, home: &str) -> (r: (u64, bool))
        requires
            old(counted).wf(),
        ensures
            final(counted).wf(),
            match meta {
                Meta::Unreadable { denied, message } | Meta::Unlisted { denied, message } => r == (0u64, false)
                    && final(self).denied == (if denied { sat_usize(old(self).denied, 1) } else { old(self).denied })
                    && final(self).evicted == old(self).evicted
                    && crate::task::texts(final(self).unreadable@) == capped(crate::task::texts(old(self).unreadable@),
                        seq![crate::format::tilde_spec(path@, home@) + ": "@ + message@])
                    && final(counted)@ == old(counted)@,
                Meta::Dir { blocks } => r == (if blocks * 512 <= u64::MAX { (blocks * 512) as u64 } else { u64::MAX }, true)
                    && final(self).denied == old(self).denied && final(self).evicted == old(self).evicted
                    && final(self).unreadable@ == old(self).unreadable@ && final(counted)@ == old(counted)@,
                Meta::File { dataless, nlink, dev, ino, blocks } => !r.1
                    && final(self).denied == old(self).denied
                    && final(self).unreadable@ == old(self).unreadable@
                    && if is_evicted_spec(path@, dataless) {
                        r.0 == 0 && final(self).evicted == sat_usize(old(self).evicted, 1) && final(counted)@ == old(counted)@
                    } else {
                        &&& final(self).evicted == old(self).evicted
                        &&& final(counted)@ == (if nlink > 1 { old(counted)@.insert((dev, ino)) } else { old(counted)@ })
                        &&& r.0 == (if nlink > 1 && old(counted)@.contains((dev, ino)) {
                            0
                        } else if blocks * 512 <= u64::MAX {
                            (blocks * 512) as u64
                        } else {
                            u64::MAX
                        })
                    },
            },
    {
        match meta {
            Meta::Unreadable { denied, message } => {
                self.note(path, denied, message.as_str(), home);
                (0, false)
            },
            Meta::Unlisted { denied, message } => {
                self.note(path, denied, message.as_str(), home);
                (0, false)
            },
            Meta::Dir { blocks } => (occupied(blocks), true),
            Meta::File { dataless, nlink, dev, ino, blocks } => {
                if is_evicted(path, dataless) {
                    self.evicted = self.evicted.saturating_add(1);
                    return (0, false);
                }
                if nlink > 1 {
                    if !counted.insert(dev, ino) {
                        return (0, false);
                    }
                }
                (occupied(blocks), false)
            },
        }
    }
}

/// Sum of a list of sizes, held at the largest `u64`.
pub open spec fn sum_sizes(v: Seq<u64>) -> u64
    decreases v.len(),
{
    if v.len() == 0 {
        0
    } else {
        crate::task::docker::sat_add(sum_sizes(v.drop_last()), v.last())
    }
}

/// The total of several trees measured together (each one's figure given),
/// held at the largest `u64`.
pub fn measure_all(totals: &Vec<u64>) -> (r: u64)
    ensures
        r == sum_sizes(totals@),
{
    let mut sum: u64 = 0;
    let mut i: usize = 0;
    while i < totals.len()
        invariant
            i <= totals@.len(),
            sum == sum_sizes(totals@.take(i as int)),
        decreases totals@.len() - i,
    {
        assert(totals@.take(i + 1).drop_last() =~= totals@.take(i as int));
        sum = sum.saturating_add(totals[i]);
        i += 1;
    }
    assert(totals@.take(totals@.len() as int) =~= totals@);
    sum
}

// ── removal ────────────────────────────────────────────────────────────────

/// A removal that only left one protected entry alone.
pub open spec fn only_excluded(r: Removal) -> bool {
    &&& r.excluded == 1
    &&& r.removed == 0
    &&& r.freed == 0
    &&& r.trashed == 0
    &&& r.errors@.len() == 0
    &&& r.moves@.len() == 0
}

/// A removal of one entry of `bytes` that went the way the disposal says:
/// freed for good, or moved to the trash at `to`.
pub open spec fn removed_one(r: Removal, from: Seq<char>, to: Seq<char>, bytes: u64, disposal: Disposal) -> bool {
    &&& r.removed == 1
    &&& r.excluded == 0
    &&& r.errors@.len() == 0
    &&& match disposal {
        Disposal::Purge => r.freed == bytes && r.trashed == 0 && r.moves@.len() == 0,
        Disposal::Trash => r.trashed == bytes && r.freed == 0 && r.moves@.len() == 1 && r.moves@[0].from@ == from
            && r.moves@[0].to@ == to && r.moves@[0].bytes == bytes,
    }
}

/// Removes one entry, honouring the policy: a protected entry is left alone
/// (and nothing must have been done to it), any other one of `bytes` went
/// where `disposed` says — where it landed in the trash (ignored when
/// purging) — or could not go, and why.
pub fn remove(path: &str, policy: &Policy, bytes: u64, disposed: Result<String, String>, home: &str) -> (r: Result<Removal, String>)
    ensures
        crate::config::blocks_spec(policy.excludes@, path@, home@) ==> (r matches Ok(x) && only_excluded(x)),
        !crate::config::blocks_spec(policy.excludes@, path@, home@) ==> match disposed {
            Ok(to) => r matches Ok(x) && removed_one(x, path@, to@, bytes, policy.disposal),
            Err(e) => r matches Err(m) && m@ == crate::format::tilde_spec(path@, home@) + ": "@ + e@,
        },
{
    let mut removal = Removal::default();
    if policy.excludes.blocks(path, home) {
        removal.excluded = 1;
        return Ok(removal);
    }
    match disposed {
        Ok(to) => {
            removal.record(path, Some(to), bytes, policy.disposal);
            Ok(removal)
        },
        Err(e) => {
            let mut m = crate::format::tilde(path, home);
            push_str(&mut m, ": ");
            push_str(&mut m, e.as_str());
            Err(m)
        },
    }
}

/// For each path, whether the policy lets it go: `false` for one the
/// exclusions protect, which must not be touched at all.
pub fn unprotected(paths: &Vec<String>, policy: &Policy, home: &str) -> (r: Vec<bool>)
    ensures
        r@.len() == paths@.len(),
        forall|k: int| 0 <= k < paths@.len() ==> #[trigger] r@[k] == !crate::config::blocks_spec(policy.excludes@, paths@[k]@, home@),
{
    let mut r: Vec<bool> = Vec::new();
    let mut k: usize = 0;
    while k < paths.len()
        invariant
            k <= paths@.len(),
            r@.len() == k,
            forall|j: int| 0 <= j < k ==> #[trigger] r@[j] == !crate::config::blocks_spec(policy.excludes@, paths@[j]@, home@),
        decreases paths@.len() - k,
    {
        r.push(!policy.excludes.blocks(paths[k].as_str(), home));
        k += 1;
    }
    r
}

/// The entries, among the first `n`, whose age in days is at least
/// `older_than` (every one when no age was asked for), in order.
pub open spec fn aged_spec(entries: Seq<String>, ages: Seq<u64>, older_than: Option<u64>, n: int) -> Seq<String>
    decreases n,
{
    if n <= 0 {
        Seq::empty()
    } else {
        aged_spec(entries, ages, older_than, n - 1) + (match older_than {
            Some(days) if ages[n - 1] < days => Seq::empty(),
            _ => seq![entries[n - 1]],
        })
    }
}

/// What `--older-than` leaves of a directory's entries, given the age of
/// each in days: anything touched more recently is left alone.
pub fn old_enough(entries: Vec<String>, ages: &Vec<u64>, older_than: Option<u64>) -> (r: Vec<String>)
    requires
        ages@.len() == entries@.len(),
    ensures
        r@ == aged_spec(entries@, ages@, older_than, entries@.len() as int),
{
    let ghost all = entries@;
    let mut entries = entries;
    let mut r: Vec<String> = Vec::new();
    let n = entries.len();
    let mut k: usize = 0;
    assert(entries@ =~= all.skip(0));
    while k < n
        invariant
            k <= n,
            n == all.len(),
            ages@.len() == n,
            entries@ == all.skip(k as int),
            r@ == aged_spec(all, ages@, older_than, k as int),
        decreases n - k,
    {
        let e = entries.remove(0);
        assert(e == all[k as int]);
        assert(entries@ =~= all.skip(k + 1));
        let keep = match older_than {
            Some(days) => ages[k] >= days,
            None => true,
        };
        let ghost before = r@;
        if keep {
            r.push(e);
        }
        assert(r@ =~= aged_spec(all, ages@, older_than, k + 1));
        k += 1;
    }
    r
}

/// The positions of the entries a policy lets go, in order.
pub open spec fn wanted_spec(entries: Seq<String>, patterns: Seq<Seq<char>>, home: Seq<char>) -> Seq<usize>
    decreases entries.len(),
{
    if entries.len() == 0 {
        Seq::empty()
    } else {
        let rest = wanted_spec(entries.drop_last(), patterns, home);
        if crate::config::blocks_spec(patterns, entries.last()@, home) {
            rest
        } else {
            rest.push((entries.len() - 1) as usize)
        }
    }
}

/// The size already known for an entry, if any.
pub open spec fn known_at(known: Seq<Option<u64>>, i: int) -> Option<u64> {
    if 0 <= i < known.len() {
        known[i]
    } else {
        None
    }
}

/// The wanted entries still to be measured.
pub open spec fn unmeasured_spec(wanted: Seq<usize>, known: Seq<Option<u64>>) -> Seq<usize>
    decreases wanted.len(),
{
    if wanted.len() == 0 {
        Seq::empty()
    } else {
        let rest = unmeasured_spec(wanted.drop_last(), known);
        if known_at(known, wanted.last() as int) is None {
            rest.push(wanted.last())
        } else {
            rest
        }
    }
}

/// What a removal of a list of entries will touch, decided before anything
/// is: the entries the policy lets go, how many it protects, and which of
/// those going still have to be measured.
#[derive(Debug, Clone)]
pub struct RemovalPlan {
    pub excluded: usize,
    pub wanted: Vec<usize>,
    pub unmeasured: Vec<usize>,
}

impl RemovalPlan {
    /// Plans the removal of `entries`, `known` holding the sizes somebody
    /// already paid to compute (parallel to them; missing or `None`: to be
    /// measured).
    pub fn new(entries: &Vec<String>, known: &Vec<Option<u64>>, policy: &Policy, home: &str) -> (r: Self)
        ensures
            r.wanted@ == wanted_spec(entries@, policy.excludes@, home@),
            r.excluded == entries@.len() - r.wanted@.len(),
            r.unmeasured@ == unmeasured_spec(r.wanted@, known@),
    {
        let mut wanted: Vec<usize> = Vec::new();
        let mut i: usize = 0;
        proof {
            lemma_wanted_len(entries@.take(0), policy.excludes@, home@);
        }
        while i < entries.len()
            invariant
                i <= entries@.len(),
                wanted@ == wanted_spec(entries@.take(i as int), policy.excludes@, home@),
                wanted@.len() <= i,
            decreases entries@.len() - i,
        {
            assert(entries@.take(i + 1).drop_last() =~= entries@.take(i as int));
            if !policy.excludes.blocks(entries[i].as_str(), home) {
                wanted.push(i);
            }
            i += 1;
        }
        assert(entries@.take(entries@.len() as int) =~= entries@);
        let mut unmeasured: Vec<usize> = Vec::new();
        let mut w: usize = 0;
        while w < wanted.len()
            invariant
                w <= wanted@.len(),
                unmeasured@ == unmeasured_spec(wanted@.take(w as int), known@),
            decreases wanted@.len() - w,
        {
            assert(wanted@.take(w + 1).drop_last() =~= wanted@.take(w as int));
            let idx = wanted[w];
            let is_known = idx < known.len() && known[idx].is_some();
            if !is_known {
                unmeasured.push(idx);
            }
            w += 1;
        }
        assert(wanted@.take(wanted@.len() as int) =~= wanted@);
        RemovalPlan { excluded: entries.len() - wanted.len(), wanted, unmeasured }
    }
}

proof fn lemma_wanted_len(entries: Seq<String>, patterns: Seq<Seq<char>>, home: Seq<char>)
    ensures
        wanted_spec(entries, patterns, home).len() <= entries.len(),
    decreases entries.len(),
{
    if entries.len() > 0 {
        lemma_wanted_len(entries.drop_last(), patterns, home);
    }
}

/// The size each wanted entry is removed with: the one known, or the next
/// one measured (0 when the measurement came up short).
pub open spec fn sizes_spec(wanted: Seq<usize>, known: Seq<Option<u64>>, measured: Seq<u64>) -> Seq<u64>
    decreases wanted.len(),
{
    if wanted.len() == 0 {
        Seq::empty()
    } else {
        let rest = sizes_spec(wanted.drop_last(), known, measured);
        let next = unmeasured_spec(wanted.drop_last(), known).len();
        rest.push(match known_at(known, wanted.last() as int) {
            Some(b) => b,
            None => if next < measured.len() {
                measured[next as int]
            } else {
                0
            },
        })
    }
}

/// The figures of a removal after each wanted entry went or failed: freed,
/// trashed, removed (each held at its maximum), errors and moves.
pub open spec fn outcomes_spec(
    entries: Seq<String>,
    wanted: Seq<usize>,
    sizes: Seq<u64>,
    outcomes: Seq<Result<String, String>>,
    disposal: Disposal,
) -> (u64, u64, usize, Seq<Seq<char>>, Seq<Move>)
    decreases outcomes.len(),
{
    if outcomes.len() == 0 {
        (0, 0, 0, Seq::empty(), Seq::empty())
    } else {
        let n = outcomes.len() - 1;
        let a = outcomes_spec(entries, wanted, sizes, outcomes.drop_last(), disposal);
        let bytes = sizes[n];
        match outcomes[n] {
            Err(e) => (a.0, a.1, a.2, a.3.push(e@), a.4),
            Ok(to) => match disposal {
                Disposal::Purge => (crate::task::docker::sat_add(a.0, bytes), a.1, sat_usize(a.2, 1), a.3, a.4),
                Disposal::Trash => (a.0, crate::task::docker::sat_add(a.1, bytes), sat_usize(a.2, 1), a.3,
                    a.4.push(Move { from: entries[wanted[n] as int], to, bytes })),
            },
        }
    }
}

proof fn lemma_unmeasured_len(wanted: Seq<usize>, known: Seq<Option<u64>>)
    ensures
        unmeasured_spec(wanted, known).len() <= wanted.len(),
    decreases wanted.len(),
{
    if wanted.len() > 0 {
        lemma_unmeasured_len(wanted.drop_last(), known);
    }
}

/// The sizes the wanted entries are removed with.
pub fn removal_sizes(plan: &RemovalPlan, known: &Vec<Option<u64>>, measured: &Vec<u64>) -> (r: Vec<u64>)
    ensures
        r@ == sizes_spec(plan.wanted@, known@, measured@),
{
    let mut r: Vec<u64> = Vec::new();
    let mut next: usize = 0;
    let mut w: usize = 0;
    while w < plan.wanted.len()
        invariant
            w <= plan.wanted@.len(),
            r@ == sizes_spec(plan.wanted@.take(w as int), known@, measured@),
            next == unmeasured_spec(plan.wanted@.take(w as int), known@).len(),
            next <= w,
        decreases plan.wanted@.len() - w,
    {
        assert(plan.wanted@.take(w + 1).drop_last() =~= plan.wanted@.take(w as int));
        let idx = plan.wanted[w];
        let k = if idx < known.len() { known[idx] } else { None };
        let b = match k {
            Some(b) => b,
            None => {
                let b = if next < measured.len() { measured[next] } else { 0 };
                next += 1;
                b
            },
        };
        r.push(b);
        w += 1;
    }
    assert(plan.wanted@.take(plan.wanted@.len() as int) =~= plan.wanted@);
    r
}

/// Removes a planned list of entries, given the sizes measured for those
/// without one (in the plan's order), what could not be read while
/// measuring, and what disposing of each wanted entry did (where it landed,
/// or why it could not go).
pub fn remove_measured(
    entries: &Vec<String>,
    known: &Vec<Option<u64>>,
    plan: &RemovalPlan,
    measured: &Vec<u64>,
    unreadable: Vec<String>,
    outcomes: Vec<Result<String, String>>,
    disposal: Disposal,
) -> (r: Removal)
    requires
        forall|w: int| 0 <= w < plan.wanted@.len() ==> (#[trigger] plan.wanted@[w]) < entries@.len(),
        outcomes@.len() == plan.wanted@.len(),
    ensures
        ({
            let o = outcomes_spec(entries@, plan.wanted@, sizes_spec(plan.wanted@, known@, measured@), outcomes@, disposal);
            &&& r.excluded == plan.excluded
            &&& r.freed == o.0
            &&& r.trashed == o.1
            &&& r.removed == o.2
            &&& crate::task::texts(r.errors@) == crate::task::texts(unreadable@) + o.3
            &&& r.moves@ == o.4
        }),
{
    let sizes = removal_sizes(plan, known, measured);
    proof {
        lemma_sizes_len(plan.wanted@, known@, measured@);
    }
    let ghost all = outcomes@;
    let ghost start = crate::task::texts(unreadable@);
    let mut freed: u64 = 0;
    let mut trashed: u64 = 0;
    let mut removed: usize = 0;
    let mut errors = unreadable;
    let mut moves: Vec<Move> = Vec::new();
    let mut outcomes = outcomes;
    let n = outcomes.len();
    let mut w: usize = 0;
    proof {
        assert(outcomes@ =~= all.skip(0));
    }
    while outcomes.len() > 0
        invariant
            w <= n,
            n == all.len(),
            all.len() == plan.wanted@.len(),
            sizes@ == sizes_spec(plan.wanted@, known@, measured@),
            sizes@.len() == plan.wanted@.len(),
            forall|x: int| 0 <= x < plan.wanted@.len() ==> (#[trigger] plan.wanted@[x]) < entries@.len(),
            outcomes@ == all.skip(w as int),
            ({
                let o = outcomes_spec(entries@, plan.wanted@, sizes@, all.take(w as int), disposal);
                &&& freed == o.0
                &&& trashed == o.1
                &&& removed == o.2
                &&& crate::task::texts(errors@) == start + o.3
                &&& moves@ == o.4
            }),
        decreases outcomes@.len(),
    {
        let x = outcomes.remove(0);
        assert(x == all[w as int]);
        assert(all.take(w + 1).drop_last() =~= all.take(w as int));
        assert(outcomes@ =~= all.skip(w + 1));
        let bytes = sizes[w];
        match x {
            Err(e) => {
                let ghost before = crate::task::texts(errors@);
                errors.push(e);
                assert(crate::task::texts(errors@) =~= before.push(all[w as int]->Err_0@));
            },
            Ok(to) => {
                removed = removed.saturating_add(1);
                match disposal {
                    Disposal::Purge => {
                        freed = freed.saturating_add(bytes);
                    },
                    Disposal::Trash => {
                        trashed = trashed.saturating_add(bytes);
                        let from = entries[plan.wanted[w]].clone();
                        moves.push(Move { from, to, bytes });
                    },
                }
            },
        }
        w += 1;
    }
    assert(all.take(all.len() as int) =~= all);
    proof {
        lemma_sizes_len(plan.wanted@, known@, measured@);
    }
    Removal { freed, trashed, removed, excluded: plan.excluded, errors, moves }
}

proof fn lemma_sizes_len(wanted: Seq<usize>, known: Seq<Option<u64>>, measured: Seq<u64>)
    ensures
        sizes_spec(wanted, known, measured).len() == wanted.len(),
    decreases wanted.len(),
{
    if wanted.len() > 0 {
        lemma_sizes_len(wanted.drop_last(), known, measured);
    }
}

/// Plans the removal of a known list of entries, with nothing measured yet.
/// The caller picks what goes, which is what lets a measurement and the
/// removal that follows agree on exactly the same set.
pub fn remove_entries(entries: &Vec<String>, policy: &Policy, home: &str) -> (r: RemovalPlan)
    ensures
        r.wanted@ == wanted_spec(entries@, policy.excludes@, home@),
        r.excluded == entries@.len() - r.wanted@.len(),
        r.unmeasured@ == r.wanted@,
{
    let none: Vec<Option<u64>> = Vec::new();
    let r = RemovalPlan::new(entries, &none, policy, home);
    proof {
        lemma_all_unmeasured(r.wanted@, none@);
    }
    r
}

proof fn lemma_all_unmeasured(wanted: Seq<usize>, known: Seq<Option<u64>>)
    requires
        known.len() == 0,
    ensures
        unmeasured_spec(wanted, known) == wanted,
    decreases wanted.len(),
{
    if wanted.len() > 0 {
        lemma_all_unmeasured(wanted.drop_last(), known);
        assert(wanted.drop_last().push(wanted.last()) =~= wanted);
    }
}

// ── walking ────────────────────────────────────────────────────────────────

/// Folders a walk of the home tree never enters below its root.
pub open spec fn skipped_dir(name: Seq<char>) -> bool {
    name == "Library"@ || name == "node_modules"@ || name == ".Trash"@ || name == ".git"@ || name == ".cargo"@
        || name == ".rustup"@ || name == "Applications"@
}

/// Whether a walk passes over a folder met at `depth` (the root, at depth 0,
/// is walked whatever its name) or beyond `max_depth`.
pub fn walk_skips(name: &str, depth: usize, max_depth: usize) -> (r: bool)
    ensures
        r == (depth > max_depth || (depth > 0 && skipped_dir(name@))),
{
    if depth > max_depth {
        return true;
    }
    if depth == 0 {
        return false;
    }
    let n = chars_of(name);
    let is = |t: &str| -> (b: bool)
        ensures
            b == (n@ == t@),
    { crate::text::chars_eq(n.as_slice(), chars_of(t).as_slice()) };
    is("Library") || is("node_modules") || is(".Trash") || is(".git") || is(".cargo") || is(".rustup") || is("Applications")
}

/// The `.plist` files among paths, sorted by name.
pub fn plists(paths: Vec<String>) -> (r: Vec<String>)
    ensures
        forall|i: int| 0 <= i < r@.len() ==> paths@.contains(#[trigger] r@[i])
            && crate::task::scan::extension_spec(r@[i]@) == Some("plist"@),
        forall|i: int| 0 <= i < paths@.len() && crate::task::scan::extension_spec((#[trigger] paths@[i])@) == Some("plist"@)
            ==> r@.contains(paths@[i]),
        forall|i: int, j: int| 0 <= i < j < r@.len() ==> !crate::task::journal::text_less(r@[j]@, r@[i]@),
{
    let mut kept: Vec<String> = Vec::new();
    let mut i: usize = 0;
    let want = chars_of("plist");
    while i < paths.len()
        invariant
            i <= paths@.len(),
            want@ == "plist"@,
            forall|k: int| 0 <= k < kept@.len() ==> paths@.contains(#[trigger] kept@[k])
                && crate::task::scan::extension_spec(kept@[k]@) == Some("plist"@),
            forall|k: int| 0 <= k < i && crate::task::scan::extension_spec((#[trigger] paths@[k])@) == Some("plist"@)
                ==> kept@.contains(paths@[k]),
        decreases paths@.len() - i,
    {
        let ghost before = kept@;
        match crate::task::scan::extension(paths[i].as_str()) {
            Some(e) => if crate::text::chars_eq(chars_of(e.as_str()).as_slice(), want.as_slice()) {
                kept.push(paths[i].clone());
                assert(kept@[before.len() as int] == paths@[i as int]);
            },
            None => {},
        }
        proof {
            assert forall|k: int| 0 <= k < kept@.len() implies paths@.contains(#[trigger] kept@[k])
                && crate::task::scan::extension_spec(kept@[k]@) == Some("plist"@) by {
                if k < before.len() {
                    assert(kept@[k] == before[k]);
                } else {
                    assert(kept@[k] == paths@[i as int]);
                }
            }
            assert forall|k: int| 0 <= k < i + 1 && crate::task::scan::extension_spec((#[trigger] paths@[k])@) == Some("plist"@)
                implies kept@.contains(paths@[k]) by {
                if k < i {
                    let x = choose|x: int| 0 <= x < before.len() && before[x] == paths@[k];
                    assert(kept@[x] == before[x]);
                } else {
                    assert(kept@[before.len() as int] == paths@[k]);
                }
            }
        }
        i += 1;
    }
    let ghost unsorted = kept@;
    let r = crate::task::journal::sort_texts(kept);
    proof {
        assert forall|k: int| 0 <= k < r@.len() implies paths@.contains(#[trigger] r@[k])
            && crate::task::scan::extension_spec(r@[k]@) == Some("plist"@) by {
            vstd::seq_lib::to_multiset_contains(r@, r@[k]);
            vstd::seq_lib::to_multiset_contains(unsorted, r@[k]);
            let x = choose|x: int| 0 <= x < unsorted.len() && unsorted[x] == r@[k];
        }
        assert forall|k: int| 0 <= k < paths@.len() && crate::task::scan::extension_spec((#[trigger] paths@[k])@) == Some("plist"@)
            implies r@.contains(paths@[k]) by {
            vstd::seq_lib::to_multiset_contains(r@, paths@[k]);
            vstd::seq_lib::to_multiset_contains(unsorted, paths@[k]);
        }
    }
    r
}

} // verus!
