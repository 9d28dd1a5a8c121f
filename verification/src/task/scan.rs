//! Disk inventory: applications and large files.

use vstd::prelude::*;
use crate::format::{parse_spotlight_date, spotlight_date_spec, tilde, tilde_spec};
use crate::sys::fsx::{home_join, join, join_spec};
use crate::task::agents::{file_stem_spec, label_of, last_index};
use crate::task::journal::{sort_texts, text_less};
use crate::task::ram::{file_name, file_name_spec, is_permutation, listed, sort_desc, sorted_desc};
use crate::text::{ascii_lowercase, ascii_lowercase_chars, chars_eq, chars_of, has_prefix, starts_with, string_of};

verus! {

/// What a day count about an application actually rests on.
///
/// Worth carrying around because the three are not equally strong, and a
/// tool that proposes deletions has to say which one it has.
#[derive(Debug, Clone, Copy, PartialEq, Eq, Structural)]
pub enum Evidence {
    /// Spotlight recorded the launch itself. The direct answer.
    Launch,
    /// No launch on record, but the application's own preferences, caches or
    /// saved state were written then, which takes a running application.
    Traces,
    /// Nothing on this machine remembers it running, so the count is the age
    /// of the bundle: how long it has sat there without leaving a trace.
    Install,
}

/// An item weighed on disk.
#[derive(Debug, Clone, PartialEq, Eq)]
pub struct Entry {
    /// Display name (application) or shortened path (file).
    pub name: String,
    pub path: String,
    pub bytes: u64,
    /// Days since it was last used, when that could be established at all.
    pub unused_days: Option<u64>,
    /// What `unused_days` was read from. Applications only: for a loose file
    /// Spotlight is the only source there is.
    pub evidence: Option<Evidence>,
}

/// `Path::extension`: what follows the last dot of the file name, unless
/// that dot leads the name.
pub open spec fn extension_spec(path: Seq<char>) -> Option<Seq<char>> {
    let name = file_name_spec(path);
    let d = last_index(name, '.');
    if d <= 0 {
        None
    } else {
        Some(name.skip(d + 1))
    }
}

/// The extension of a path, if it has one.
pub fn extension(path: &str) -> (r: Option<String>)
    ensures
        match extension_spec(path@) {
            None => r is None,
            Some(e) => r matches Some(x) && x@ == e,
        },
{
    let name = chars_of(file_name(path).as_str());
    let mut d: usize = name.len();
    assert(name@.take(d as int) =~= name@);
    while d > 0 && name[d - 1] != '.'
        invariant
            d <= name@.len(),
            last_index(name@, '.') == last_index(name@.take(d as int), '.'),
        decreases d,
    {
        assert(name@.take(d as int).drop_last() =~= name@.take(d - 1));
        d -= 1;
    }
    if d <= 1 {
        None
    } else {
        assert(name@.take(d as int).last() == '.');
        Some(string_of(crate::text::slice_to_vec(name.as_slice(), d, name.len()).as_slice()))
    }
}

/// Where applications are installed: the system folder and the user's own.
pub fn application_roots(home: &str) -> (r: Vec<String>)
    ensures
        r@.len() == 2,
        r@[0]@ == "/Applications"@,
        r@[1]@ == join_spec(home@, "Applications"@),
{
    let mut a = String::new();
    crate::text::push_str(&mut a, "/Applications");
    vec![a, home_join(home, "Applications")]
}

fn copy_text(s: &String) -> (r: String)
    ensures
        r == *s,
{
    s.clone()
}

/// The application bundles among the entries of those folders, in path
/// order.
pub fn application_bundles(entries: Vec<String>) -> (r: Vec<String>)
    ensures
        forall|i: int| 0 <= i < r@.len() ==> entries@.contains(#[trigger] r@[i]) && extension_spec(r@[i]@) == Some("app"@),
        forall|i: int| 0 <= i < entries@.len() && extension_spec((#[trigger] entries@[i])@) == Some("app"@) ==> r@.contains(entries@[i]),
        forall|i: int, j: int| 0 <= i < j < r@.len() ==> !text_less(r@[j]@, r@[i]@),
{
    proof {
        reveal_strlit("app");
    }
    let mut apps: Vec<String> = Vec::new();
    let app = chars_of("app");
    let mut i: usize = 0;
    while i < entries.len()
        invariant
            i <= entries@.len(),
            app@ == "app"@,
            forall|k: int| 0 <= k < apps@.len() ==> entries@.contains(#[trigger] apps@[k]) && extension_spec(apps@[k]@) == Some("app"@),
            forall|k: int| 0 <= k < i && extension_spec((#[trigger] entries@[k])@) == Some("app"@) ==> apps@.contains(entries@[k]),
        decreases entries@.len() - i,
    {
        let ghost before = apps@;
        match extension(entries[i].as_str()) {
            Some(e) => {
                if chars_eq(chars_of(e.as_str()).as_slice(), app.as_slice()) {
                    apps.push(copy_text(&entries[i]));
                    assert(apps@[before.len() as int] == entries@[i as int]);
                }
            },
            None => {},
        }
        proof {
            assert forall|k: int| 0 <= k < i + 1 && extension_spec((#[trigger] entries@[k])@) == Some("app"@) implies apps@.contains(entries@[k]) by {
                if k < i {
                    let x = choose|x: int| 0 <= x < before.len() && before[x] == entries@[k];
                    assert(apps@[x] == before[x]);
                } else {
                    assert(apps@[before.len() as int] == entries@[i as int]);
                }
            }
            assert forall|k: int| 0 <= k < apps@.len() implies entries@.contains(#[trigger] apps@[k]) && extension_spec(apps@[k]@) == Some("app"@) by {
                if k < before.len() {
                    assert(apps@[k] == before[k]);
                } else {
                    assert(apps@[k] == entries@[i as int]);
                }
            }
        }
        i += 1;
    }
    let ghost unsorted = apps@;
    let r = sort_texts(apps);
    proof {
        assert forall|k: int| 0 <= k < r@.len() implies entries@.contains(#[trigger] r@[k]) && extension_spec(r@[k]@) == Some("app"@) by {
            vstd::seq_lib::to_multiset_contains(r@, r@[k]);
            vstd::seq_lib::to_multiset_contains(unsorted, r@[k]);
            let x = choose|x: int| 0 <= x < unsorted.len() && unsorted[x] == r@[k];
        }
        assert forall|k: int| 0 <= k < entries@.len() && extension_spec((#[trigger] entries@[k])@) == Some("app"@) implies r@.contains(entries@[k]) by {
            vstd::seq_lib::to_multiset_contains(r@, entries@[k]);
            vstd::seq_lib::to_multiset_contains(unsorted, entries@[k]);
        }
    }
    r
}

/// Measures one application bundle: named after it, with its size.
pub fn measure_application(path: &str, bytes: u64) -> (r: Entry)
    ensures
        r.name@ == file_stem_spec(path@),
        r.path@ == path@,
        r.bytes == bytes,
        r.unused_days is None,
        r.evidence is None,
{
    let mut p = String::new();
    crate::text::push_str(&mut p, path);
    Entry { name: label_of(path), path: p, bytes, unused_days: None, evidence: None }
}

fn copy_entry(e: &Entry) -> (r: Entry)
    ensures
        r == *e,
{
    Entry {
        name: e.name.clone(),
        path: e.path.clone(),
        bytes: e.bytes,
        unused_days: e.unused_days,
        evidence: e.evidence,
    }
}

/// `r` is `entries` taken in `order`, a permutation of their positions in
/// which equal sizes keep their order.
pub open spec fn arranged(r: Seq<Entry>, entries: Seq<Entry>, order: Seq<usize>) -> bool {
    &&& is_permutation(order, entries.len() as int)
    &&& r.len() == order.len()
    &&& forall|x: int| 0 <= x < r.len() ==> #[trigger] r[x] == entries[order[x] as int]
    &&& forall|a: int, b: int| 0 <= a < b < r.len() && r[a].bytes == r[b].bytes ==> order[a] < order[b]
}

/// Entries largest first; equal sizes keep their order.
pub fn largest_first(entries: &Vec<Entry>) -> (r: Vec<Entry>)
    ensures
        r@.len() == entries@.len(),
        exists|order: Seq<usize>| #[trigger] arranged(r@, entries@, order),
        forall|i: int, j: int| 0 <= i < j < r@.len() ==> r@[i].bytes >= r@[j].bytes,
        forall|i: int| 0 <= i < r@.len() ==> entries@.contains(#[trigger] r@[i]),
        forall|i: int| 0 <= i < entries@.len() ==> r@.contains(#[trigger] entries@[i]),
{
    let mut keys: Vec<u64> = Vec::new();
    let mut i: usize = 0;
    while i < entries.len()
        invariant
            i <= entries@.len(),
            keys@.len() == i,
            forall|k: int| 0 <= k < i ==> #[trigger] keys@[k] == entries@[k].bytes,
        decreases entries@.len() - i,
    {
        keys.push(entries[i].bytes);
        i += 1;
    }
    let order = sort_desc(&keys);
    let mut r: Vec<Entry> = Vec::new();
    let mut t: usize = 0;
    while t < order.len()
        invariant
            t <= order@.len(),
            is_permutation(order@, keys@.len() as int),
            keys@.len() == entries@.len(),
            forall|k: int| 0 <= k < keys@.len() ==> #[trigger] keys@[k] == entries@[k].bytes,
            r@.len() == t,
            forall|x: int| 0 <= x < t ==> #[trigger] r@[x] == entries@[order@[x] as int],
        decreases order@.len() - t,
    {
        r.push(copy_entry(&entries[order[t]]));
        t += 1;
    }
    proof {
        assert forall|a: int, b: int| 0 <= a < b < r@.len() implies r@[a].bytes >= r@[b].bytes by {
            assert(keys@[order@[a] as int] >= keys@[order@[b] as int]);
        }
        assert forall|a: int, b: int| 0 <= a < b < r@.len() && r@[a].bytes == r@[b].bytes implies order@[a] < order@[b] by {
            assert(keys@[order@[a] as int] == keys@[order@[b] as int]);
        }
        assert(arranged(r@, entries@, order@));
        assert forall|x: int| 0 <= x < r@.len() implies entries@.contains(#[trigger] r@[x]) by {
            assert(entries@[order@[x] as int] == r@[x]);
        }
        assert forall|y: int| 0 <= y < entries@.len() implies r@.contains(#[trigger] entries@[y]) by {
            assert(listed(order@, y));
            let x = choose|x: int| 0 <= x < order@.len() && order@[x] == y;
            assert(r@[x] == entries@[y]);
        }
    }
    r
}

/// `e` is the entry made for the found file `f`: same path and size, named
/// by the shortened path, with no age known.
pub open spec fn entry_of_found(e: Entry, f: (String, u64), home: Seq<char>) -> bool {
    &&& e.path@ == f.0@
    &&& e.bytes == f.1
    &&& e.name@ == tilde_spec(f.0@, home)
    &&& e.unused_days is None
    &&& e.evidence is None
}

/// `e` was made for one of the found files of at least `min_size`.
pub open spec fn from_found(e: Entry, found: Seq<(String, u64)>, min_size: u64, home: Seq<char>) -> bool {
    exists|k: int| 0 <= k < found.len() && found[k].1 >= min_size && #[trigger] entry_of_found(e, found[k], home)
}

/// Some entry of `r` was made for the found file `f`.
pub open spec fn reported(f: (String, u64), r: Seq<Entry>, home: Seq<char>) -> bool {
    exists|i: int| 0 <= i < r.len() && #[trigger] entry_of_found(r[i], f, home)
}

/// The positions, among the first `n` files found, of those of at least
/// `min_size`, in order.
pub open spec fn big_enough(found: Seq<(String, u64)>, min_size: u64, n: int) -> Seq<int>
    decreases n,
{
    if n <= 0 {
        Seq::empty()
    } else {
        big_enough(found, min_size, n - 1) + (if found[n - 1].1 >= min_size {
            seq![n - 1]
        } else {
            Seq::empty()
        })
    }
}

/// Files of at least `min_size` among those found under a root (each with
/// its size), largest first, named by their shortened path: each such file
/// exactly once.
pub fn large_files(found: &Vec<(String, u64)>, min_size: u64, home: &str) -> (r: Vec<Entry>)
    ensures
        forall|i: int, j: int| 0 <= i < j < r@.len() ==> r@[i].bytes >= r@[j].bytes,
        forall|i: int| 0 <= i < r@.len() ==> from_found(#[trigger] r@[i], found@, min_size, home@),
        forall|k: int| 0 <= k < found@.len() && (#[trigger] found@[k]).1 >= min_size ==> reported(found@[k], r@, home@),
        ({
            let q = big_enough(found@, min_size, found@.len() as int);
            exists|order: Seq<usize>| #[trigger] is_permutation(order, q.len() as int) && r@.len() == order.len()
                && forall|x: int| 0 <= x < r@.len() ==> entry_of_found(#[trigger] r@[x], found@[q[order[x] as int]], home@)
        }),
{
    let mut kept: Vec<Entry> = Vec::new();
    let mut i: usize = 0;
    while i < found.len()
        invariant
            i <= found@.len(),
            kept@.len() == big_enough(found@, min_size, i as int).len(),
            forall|x: int| 0 <= x < kept@.len() ==> entry_of_found(#[trigger] kept@[x], found@[big_enough(found@, min_size, i as int)[x]], home@),
            forall|x: int| 0 <= x < kept@.len() ==> from_found(#[trigger] kept@[x], found@, min_size, home@),
            forall|k: int| 0 <= k < i && (#[trigger] found@[k]).1 >= min_size ==> reported(found@[k], kept@, home@),
        decreases found@.len() - i,
    {
        let ghost before = kept@;
        if found[i].1 >= min_size {
            let e = Entry {
                name: tilde(found[i].0.as_str(), home),
                path: found[i].0.clone(),
                bytes: found[i].1,
                unused_days: None,
                evidence: None,
            };
            kept.push(e);
            proof {
                assert(entry_of_found(kept@[before.len() as int], found@[i as int], home@));
            }
        }
        proof {
            assert forall|k: int| 0 <= k < i + 1 && (#[trigger] found@[k]).1 >= min_size implies reported(found@[k], kept@, home@) by {
                if k < i {
                    let x = choose|x: int| 0 <= x < before.len() && #[trigger] entry_of_found(before[x], found@[k], home@);
                    assert(kept@[x] == before[x]);
                    assert(entry_of_found(kept@[x], found@[k], home@));
                } else {
                    assert(entry_of_found(kept@[before.len() as int], found@[k], home@));
                }
            }
            assert forall|x: int| 0 <= x < kept@.len() implies from_found(#[trigger] kept@[x], found@, min_size, home@) by {
                if x < before.len() {
                    assert(kept@[x] == before[x]);
                } else {
                    assert(entry_of_found(kept@[x], found@[i as int], home@));
                }
            }
            let q0 = big_enough(found@, min_size, i as int);
            let q1 = big_enough(found@, min_size, i + 1);
            assert forall|x: int| 0 <= x < kept@.len() implies entry_of_found(#[trigger] kept@[x], found@[q1[x]], home@) by {
                if x < before.len() {
                    assert(kept@[x] == before[x]);
                    assert(q1[x] == q0[x]);
                } else {
                    assert(q1[x] == i as int);
                }
            }
        }
        i += 1;
    }
    let r = largest_first(&kept);
    proof {
        let q = big_enough(found@, min_size, found@.len() as int);
        let order = choose|order: Seq<usize>| #[trigger] arranged(r@, kept@, order);
        assert forall|x: int| 0 <= x < r@.len() implies entry_of_found(#[trigger] r@[x], found@[q[order[x] as int]], home@) by {
            assert(r@[x] == kept@[order[x] as int]);
            assert(entry_of_found(kept@[order[x] as int], found@[q[order[x] as int]], home@));
        }
        assert(is_permutation(order, q.len() as int));
        assert forall|i: int| 0 <= i < r@.len() implies from_found(#[trigger] r@[i], found@, min_size, home@) by {
            assert(kept@.contains(r@[i]));
            let x = choose|x: int| 0 <= x < kept@.len() && kept@[x] == r@[i];
            assert(from_found(kept@[x], found@, min_size, home@));
        }
        assert forall|k: int| 0 <= k < found@.len() && (#[trigger] found@[k]).1 >= min_size implies reported(found@[k], r@, home@) by {
            let x = choose|x: int| 0 <= x < kept@.len() && #[trigger] entry_of_found(kept@[x], found@[k], home@);
            assert(r@.contains(kept@[x]));
            let i = choose|i: int| 0 <= i < r@.len() && r@[i] == kept@[x];
            assert(entry_of_found(r@[i], found@[k], home@));
        }
    }
    r
}

/// Picks the strongest of the three signals that actually answered: the
/// launch Spotlight recorded, then the application's own files, then the age
/// of the bundle.
///
/// The later two are closures because reaching for them means walking the
/// home library, which is wasted work when Spotlight already knew: each one
/// is called only when everything before it was silent.
pub fn resolve(
    launch: Option<u64>,
    traces: impl FnOnce() -> Option<u64>,
    install: impl FnOnce() -> u64,
) -> (r: (u64, Evidence))
    requires
        launch is None ==> call_requires(traces, ()),
        launch is None ==> forall|t: Option<u64>| call_ensures(traces, (), t) && t is None ==> call_requires(install, ()),
    ensures
        launch matches Some(d) ==> r == (d, Evidence::Launch),
        launch is None ==> exists|t: Option<u64>| #[trigger] call_ensures(traces, (), t) && match t {
            Some(d) => r == (d, Evidence::Traces),
            None => r.1 == Evidence::Install && call_ensures(install, (), r.0),
        },
{
    if let Some(days) = launch {
        return (days, Evidence::Launch);
    }
    let t = traces();
    match t {
        Some(days) => (days, Evidence::Traces),
        None => {
            let days = install();
            (days, Evidence::Install)
        },
    }
}

/// Whole days from `then` to `now`; none when `then` lies ahead.
pub open spec fn days_between(now: u64, then: u64) -> u64 {
    if now >= then {
        ((now - then) / 86_400) as u64
    } else {
        0
    }
}

/// Whole days elapsed since an epoch time.
pub fn days_since(now: u64, then: u64) -> (r: u64)
    ensures
        r == days_between(now, then),
{
    now.saturating_sub(then) / 86_400
}

/// The folders a running application writes to when they are named after
/// the application itself rather than after its identifier.
pub fn trace_dirs(bundle: &str, home: &str) -> (r: Vec<String>)
    ensures
        r@.len() == 3,
        r@[0]@ == join_spec(join_spec(home@, "Library/Application Support"@), file_stem_spec(bundle@)),
        r@[1]@ == join_spec(join_spec(home@, "Library/Caches"@), file_stem_spec(bundle@)),
        r@[2]@ == join_spec(join_spec(home@, "Library/Logs"@), file_stem_spec(bundle@)),
{
    let name = label_of(bundle);
    let a = join(home_join(home, "Library/Application Support").as_str(), name.as_str());
    let b = join(home_join(home, "Library/Caches").as_str(), name.as_str());
    let c = join(home_join(home, "Library/Logs").as_str(), name.as_str());
    vec![a, b, c]
}

/// The latest of a list of modification times, 0 for none.
pub open spec fn latest(mtimes: Seq<u64>) -> u64
    decreases mtimes.len(),
{
    if mtimes.len() == 0 {
        0
    } else {
        let rest = latest(mtimes.drop_last());
        if mtimes.last() > rest {
            mtimes.last()
        } else {
            rest
        }
    }
}

/// Days since anything belonging to an application was last written, given
/// the modification times of its support files (0 for one that is missing).
///
/// The most recent wins: caches go stale, preferences do not, and either one
/// being touched means the application ran. Nothing written at all is no
/// answer.
pub fn days_since_traces(mtimes: &Vec<u64>, now: u64) -> (r: Option<u64>)
    ensures
        r == (if latest(mtimes@) > 0 { Some(days_between(now, latest(mtimes@))) } else { None::<u64> }),
{
    let mut top: u64 = 0;
    let mut i: usize = 0;
    while i < mtimes.len()
        invariant
            i <= mtimes@.len(),
            top == latest(mtimes@.take(i as int)),
        decreases mtimes@.len() - i,
    {
        assert(mtimes@.take(i + 1).drop_last() =~= mtimes@.take(i as int));
        if mtimes[i] > top {
            top = mtimes[i];
        }
        i += 1;
    }
    assert(mtimes@.take(mtimes@.len() as int) =~= mtimes@);
    if top > 0 {
        Some(days_since(now, top))
    } else {
        None
    }
}

/// Extensions of the things people download, install once, and forget.
pub open spec fn installer_extension(e: Seq<char>) -> bool {
    ||| e == "dmg"@ ||| e == "pkg"@ ||| e == "mpkg"@ ||| e == "iso"@ ||| e == "zip"@
    ||| e == "tar"@ ||| e == "gz"@ ||| e == "tgz"@ ||| e == "bz2"@ ||| e == "xz"@
    ||| e == "7z"@ ||| e == "rar"@ ||| e == "msi"@ ||| e == "exe"@ ||| e == "deb"@
    ||| e == "rpm"@ ||| e == "appimage"@
}

fn same(a: &Vec<char>, b: &str) -> (r: bool)
    ensures
        r == (a@ == b@),
{
    chars_eq(a.as_slice(), chars_of(b).as_slice())
}

/// Whether a path's extension, read without regard to case, is that of an
/// installer or an archive.
pub open spec fn is_installer_spec(path: Seq<char>) -> bool {
    match extension_spec(path) {
        Some(e) => installer_extension(ascii_lowercase(e)),
        None => false,
    }
}

/// Whether a name ends in one of the installer extensions.
pub fn is_installer(path: &str) -> (r: bool)
    ensures
        r == is_installer_spec(path@),
{
    match extension(path) {
        None => false,
        Some(e) => {
            let x = ascii_lowercase_chars(chars_of(e.as_str()).as_slice());
            same(&x, "dmg") || same(&x, "pkg") || same(&x, "mpkg") || same(&x, "iso")
                || same(&x, "zip") || same(&x, "tar") || same(&x, "gz") || same(&x, "tgz")
                || same(&x, "bz2") || same(&x, "xz") || same(&x, "7z") || same(&x, "rar")
                || same(&x, "msi") || same(&x, "exe") || same(&x, "deb") || same(&x, "rpm")
                || same(&x, "appimage")
        },
    }
}

/// Whether an entry of the inspected folder is looked at: never a hidden
/// one, and with `installers_only` only folders and installers.
pub open spec fn dormant_candidate(path: Seq<char>, is_dir: bool, installers_only: bool) -> bool {
    &&& !has_prefix(file_name_spec(path), seq!['.'])
    &&& (!installers_only || is_dir || is_installer_spec(path))
}

/// The candidates among the entries of a folder, each given with whether it
/// is a folder, in their order.
pub open spec fn candidates_spec(entries: Seq<(String, bool)>, installers_only: bool) -> Seq<Seq<char>>
    decreases entries.len(),
{
    if entries.len() == 0 {
        Seq::empty()
    } else {
        let rest = candidates_spec(entries.drop_last(), installers_only);
        if dormant_candidate(entries.last().0@, entries.last().1, installers_only) {
            rest.push(entries.last().0@)
        } else {
            rest
        }
    }
}

/// Which entries of a folder are worth dating.
///
/// Only the top level: an installer is a single file, and descending into a
/// downloaded project directory would just be a large-file search again.
pub fn dormant_candidates(entries: &Vec<(String, bool)>, installers_only: bool) -> (r: Vec<String>)
    ensures
        crate::config::string_views(r@) == candidates_spec(entries@, installers_only),
{
    let mut r: Vec<String> = Vec::new();
    let mut i: usize = 0;
    let dot: Vec<char> = vec!['.'];
    while i < entries.len()
        invariant
            i <= entries@.len(),
            dot@ == seq!['.'],
            crate::config::string_views(r@) == candidates_spec(entries@.take(i as int), installers_only),
        decreases entries@.len() - i,
    {
        assert(entries@.take(i + 1).drop_last() =~= entries@.take(i as int));
        let path = entries[i].0.as_str();
        let hidden = starts_with(chars_of(file_name(path).as_str()).as_slice(), dot.as_slice());
        let kept = !hidden && (!installers_only || entries[i].1 || is_installer(path));
        if kept {
            let ghost before = r@;
            r.push(copy_text(&entries[i].0));
            assert(crate::config::string_views(r@) =~= crate::config::string_views(before).push(entries@[i as int].0@));
        }
        i += 1;
    }
    assert(entries@.take(entries@.len() as int) =~= entries@);
    r
}

/// The days a looked-at item counts as unused: since Spotlight saw it
/// opened, or, when it has no record, since it was written.
pub open spec fn dormant_days(used: Option<u64>, age: u64) -> u64 {
    match used {
        Some(d) => d,
        None => age,
    }
}

/// `e` is the entry made for the dated item `f` (path, days since opened if
/// known, age in days, size).
pub open spec fn entry_of_dated(e: Entry, f: (String, Option<u64>, u64, u64), home: Seq<char>) -> bool {
    &&& e.path@ == f.0@
    &&& e.bytes == f.3
    &&& e.name@ == tilde_spec(f.0@, home)
    &&& e.unused_days == Some(dormant_days(f.1, f.2))
    &&& e.evidence is None
}

/// `e` was made for one of the dated items unused for at least `min_days`.
pub open spec fn from_dated(e: Entry, found: Seq<(String, Option<u64>, u64, u64)>, min_days: u64, home: Seq<char>) -> bool {
    exists|k: int| 0 <= k < found.len() && dormant_days(found[k].1, found[k].2) >= min_days
        && #[trigger] entry_of_dated(e, found[k], home)
}

/// Some entry of `r` was made for the dated item `f`.
pub open spec fn dated_reported(f: (String, Option<u64>, u64, u64), r: Seq<Entry>, home: Seq<char>) -> bool {
    exists|i: int| 0 <= i < r.len() && #[trigger] entry_of_dated(r[i], f, home)
}

/// The positions, among the first `n` dated items, of those unused for at
/// least `min_days`, in order.
pub open spec fn old_enough(found: Seq<(String, Option<u64>, u64, u64)>, min_days: u64, n: int) -> Seq<int>
    decreases n,
{
    if n <= 0 {
        Seq::empty()
    } else {
        old_enough(found, min_days, n - 1) + (if dormant_days(found[n - 1].1, found[n - 1].2) >= min_days {
            seq![n - 1]
        } else {
            Seq::empty()
        })
    }
}

/// Items that have not been opened for at least `min_days`, largest first,
/// from each candidate's path, days since opened (if Spotlight knows),
/// age in days and size: each such item exactly once.
pub fn dormant(found: &Vec<(String, Option<u64>, u64, u64)>, min_days: u64, home: &str) -> (r: Vec<Entry>)
    ensures
        forall|i: int, j: int| 0 <= i < j < r@.len() ==> r@[i].bytes >= r@[j].bytes,
        forall|i: int| 0 <= i < r@.len() ==> from_dated(#[trigger] r@[i], found@, min_days, home@),
        forall|k: int| 0 <= k < found@.len() && dormant_days((#[trigger] found@[k]).1, found@[k].2) >= min_days
            ==> dated_reported(found@[k], r@, home@),
        ({
            let q = old_enough(found@, min_days, found@.len() as int);
            exists|order: Seq<usize>| #[trigger] is_permutation(order, q.len() as int) && r@.len() == order.len()
                && forall|x: int| 0 <= x < r@.len() ==> entry_of_dated(#[trigger] r@[x], found@[q[order[x] as int]], home@)
        }),
{
    let mut kept: Vec<Entry> = Vec::new();
    let mut i: usize = 0;
    while i < found.len()
        invariant
            i <= found@.len(),
            kept@.len() == old_enough(found@, min_days, i as int).len(),
            forall|x: int| 0 <= x < kept@.len() ==> entry_of_dated(#[trigger] kept@[x], found@[old_enough(found@, min_days, i as int)[x]], home@),
            forall|x: int| 0 <= x < kept@.len() ==> from_dated(#[trigger] kept@[x], found@, min_days, home@),
            forall|k: int| 0 <= k < i && dormant_days((#[trigger] found@[k]).1, found@[k].2) >= min_days
                ==> dated_reported(found@[k], kept@, home@),
        decreases found@.len() - i,
    {
        let ghost before = kept@;
        let days = match found[i].1 {
            Some(d) => d,
            None => found[i].2,
        };
        if days >= min_days {
            let e = Entry {
                name: tilde(found[i].0.as_str(), home),
                path: found[i].0.clone(),
                bytes: found[i].3,
                unused_days: Some(days),
                evidence: None,
            };
            kept.push(e);
            proof {
                assert(entry_of_dated(kept@[before.len() as int], found@[i as int], home@));
            }
        }
        proof {
            assert forall|k: int| 0 <= k < i + 1 && dormant_days((#[trigger] found@[k]).1, found@[k].2) >= min_days
                implies dated_reported(found@[k], kept@, home@) by {
                if k < i {
                    let x = choose|x: int| 0 <= x < before.len() && #[trigger] entry_of_dated(before[x], found@[k], home@);
                    assert(kept@[x] == before[x]);
                    assert(entry_of_dated(kept@[x], found@[k], home@));
                } else {
                    assert(entry_of_dated(kept@[before.len() as int], found@[k], home@));
                }
            }
            assert forall|x: int| 0 <= x < kept@.len() implies from_dated(#[trigger] kept@[x], found@, min_days, home@) by {
                if x < before.len() {
                    assert(kept@[x] == before[x]);
                } else {
                    assert(entry_of_dated(kept@[x], found@[i as int], home@));
                }
            }
            let q0 = old_enough(found@, min_days, i as int);
            let q1 = old_enough(found@, min_days, i + 1);
            assert forall|x: int| 0 <= x < kept@.len() implies entry_of_dated(#[trigger] kept@[x], found@[q1[x]], home@) by {
                if x < before.len() {
                    assert(kept@[x] == before[x]);
                    assert(q1[x] == q0[x]);
                } else {
                    assert(q1[x] == i as int);
                }
            }
        }
        i += 1;
    }
    let r = largest_first(&kept);
    proof {
        let q = old_enough(found@, min_days, found@.len() as int);
        let order = choose|order: Seq<usize>| #[trigger] arranged(r@, kept@, order);
        assert forall|x: int| 0 <= x < r@.len() implies entry_of_dated(#[trigger] r@[x], found@[q[order[x] as int]], home@) by {
            assert(r@[x] == kept@[order[x] as int]);
            assert(entry_of_dated(kept@[order[x] as int], found@[q[order[x] as int]], home@));
        }
        assert(is_permutation(order, q.len() as int));
        assert forall|i: int| 0 <= i < r@.len() implies from_dated(#[trigger] r@[i], found@, min_days, home@) by {
            assert(kept@.contains(r@[i]));
            let x = choose|x: int| 0 <= x < kept@.len() && kept@[x] == r@[i];
            assert(from_dated(kept@[x], found@, min_days, home@));
        }
        assert forall|k: int| 0 <= k < found@.len() && dormant_days((#[trigger] found@[k]).1, found@[k].2) >= min_days
            implies dated_reported(found@[k], r@, home@) by {
            let x = choose|x: int| 0 <= x < kept@.len() && #[trigger] entry_of_dated(kept@[x], found@[k], home@);
            assert(r@.contains(kept@[x]));
            let i = choose|i: int| 0 <= i < r@.len() && r@[i] == kept@[x];
            assert(entry_of_dated(r@[i], found@[k], home@));
        }
    }
    r
}

/// Sum of the sizes of a list of entries.
pub open spec fn bytes_sum(entries: Seq<Entry>) -> nat
    decreases entries.len(),
{
    if entries.len() == 0 {
        0
    } else {
        bytes_sum(entries.drop_last()) + entries.last().bytes as nat
    }
}

/// Sum of the sizes of a list of entries, held at the largest `u64`.
pub fn total(entries: &Vec<Entry>) -> (r: u64)
    ensures
        r == (if bytes_sum(entries@) <= u64::MAX { bytes_sum(entries@) } else { u64::MAX as nat }),
{
    let mut sum: u64 = 0;
    let mut i: usize = 0;
    while i < entries.len()
        invariant
            i <= entries@.len(),
            sum == (if bytes_sum(entries@.take(i as int)) <= u64::MAX { bytes_sum(entries@.take(i as int)) } else { u64::MAX as nat }),
        decreases entries@.len() - i,
    {
        assert(entries@.take(i + 1).drop_last() =~= entries@.take(i as int));
        sum = sum.saturating_add(entries[i].bytes);
        i += 1;
    }
    assert(entries@.take(entries@.len() as int) =~= entries@);
    sum
}

/// Whether an entry is known to have gone unused for at least `min_days`.
/// One that could not be dated never qualifies.
pub open spec fn unused_at_least(e: Entry, min_days: u64) -> bool {
    e.unused_days matches Some(d) && d >= min_days
}

/// The entries that qualify, in their order.
pub open spec fn unused_spec(entries: Seq<Entry>, min_days: u64) -> Seq<Entry>
    decreases entries.len(),
{
    if entries.len() == 0 {
        Seq::empty()
    } else {
        let rest = unused_spec(entries.drop_last(), min_days);
        if unused_at_least(entries.last(), min_days) {
            rest.push(entries.last())
        } else {
            rest
        }
    }
}

/// The applications unused for at least `min_days`: what `apps --unused`
/// keeps.
pub fn unused_for(entries: &Vec<Entry>, min_days: u64) -> (r: Vec<Entry>)
    ensures
        r@ == unused_spec(entries@, min_days),
{
    let mut r: Vec<Entry> = Vec::new();
    let mut i: usize = 0;
    while i < entries.len()
        invariant
            i <= entries@.len(),
            r@ == unused_spec(entries@.take(i as int), min_days),
        decreases entries@.len() - i,
    {
        assert(entries@.take(i + 1).drop_last() =~= entries@.take(i as int));
        let keep = match entries[i].unused_days {
            Some(d) => d >= min_days,
            None => false,
        };
        if keep {
            r.push(copy_entry(&entries[i]));
        }
        i += 1;
    }
    assert(entries@.take(entries@.len() as int) =~= entries@);
    r
}

/// The day count Spotlight's answer gives.
pub open spec fn used_days_spec(mdls_stdout: Option<&str>, now: u64) -> Option<u64> {
    match mdls_stdout {
        None => None,
        Some(out) => match spotlight_date_spec(out@) {
            None => None,
            Some(e) => Some(days_between(now, e)),
        },
    }
}

/// Days since a file was last opened, according to what `mdls -name
/// kMDItemLastUsedDate -raw` printed (none when it could not be run).
///
/// The modification time says when something was *written*; a downloaded
/// installer is written once and never touched again, whether it was run or
/// not. The last-used date is the one that answers "do you use this?".
/// `None` when Spotlight has nothing on it, which is not the same as never
/// opened: silence here means unknown.
pub fn days_since_used(mdls_stdout: Option<&str>, now: u64) -> (r: Option<u64>)
    ensures
        r == used_days_spec(mdls_stdout, now),
{
    match mdls_stdout {
        None => None,
        Some(out) => match parse_spotlight_date(out) {
            None => None,
            Some(e) => Some(days_since(now, e)),
        },
    }
}

/// The day count the traces give, from the modification times read.
pub open spec fn traces_days(mtimes: Seq<u64>, now: u64) -> Option<u64> {
    if latest(mtimes) > 0 {
        Some(days_between(now, latest(mtimes)))
    } else {
        None
    }
}

/// Days since an application was last used, and what that rests on.
///
/// Spotlight alone is not enough here: it drops the last-used date of
/// anything not launched recently. So when it says nothing, the
/// application's own files are asked (`trace_mtimes` reads their
/// modification times), and failing that the age of the bundle stands,
/// which is a ceiling rather than an answer. Each of the two is only read
/// when everything before it was silent.
pub fn application_last_use(
    mdls_stdout: Option<&str>,
    now: u64,
    trace_mtimes: impl FnOnce() -> Vec<u64>,
    age_days: impl FnOnce() -> u64,
) -> (r: (u64, Evidence))
    requires
        call_requires(trace_mtimes, ()),
        call_requires(age_days, ()),
    ensures
        used_days_spec(mdls_stdout, now) matches Some(d) ==> r == (d, Evidence::Launch),
        used_days_spec(mdls_stdout, now) is None ==> exists|m: Vec<u64>| #[trigger] call_ensures(trace_mtimes, (), m)
            && match traces_days(m@, now) {
                Some(d) => r == (d, Evidence::Traces),
                None => r.1 == Evidence::Install && call_ensures(age_days, (), r.0),
            },
{
    let launch = days_since_used(mdls_stdout, now);
    let traces = move || -> (t: Option<u64>)
        requires
            call_requires(trace_mtimes, ()),
        ensures
            exists|m: Vec<u64>| #[trigger] call_ensures(trace_mtimes, (), m) && t == traces_days(m@, now),
    {
        let m = trace_mtimes();
        days_since_traces(&m, now)
    };
    resolve(launch, traces, age_days)
}

} // verus!
