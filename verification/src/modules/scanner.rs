//! Large applications and files, first generation.

use vstd::prelude::*;
use crate::modules::utils::{cat, format_size, format_size_spec, push_line, text};
use crate::task::docker::sat_add;
use crate::task::texts;
use crate::text::{chars_of, chars_eq, decimal, has_prefix, push_decimal, push_str, starts_with};

verus! {

/// The entries largest first, each inserted after those at least as large:
/// the order a stable sort by decreasing size gives.
pub open spec fn insert_desc(s: Seq<(String, u64)>, x: (String, u64)) -> Seq<(String, u64)>
    decreases s.len(),
{
    if s.len() == 0 {
        seq![x]
    } else if s[0].1 < x.1 {
        seq![x] + s
    } else {
        seq![s[0]] + insert_desc(s.drop_first(), x)
    }
}

/// Sorted by decreasing size, equal sizes in their order.
pub open spec fn by_size(s: Seq<(String, u64)>) -> Seq<(String, u64)>
    decreases s.len(),
{
    if s.len() == 0 {
        Seq::empty()
    } else {
        insert_desc(by_size(s.drop_last()), s.last())
    }
}

/// Where an entry goes: before the first smaller one.
pub open spec fn insert_desc_at(s: Seq<(String, u64)>, x: (String, u64)) -> int
    decreases s.len(),
{
    if s.len() == 0 || s[0].1 < x.1 {
        0
    } else {
        1 + insert_desc_at(s.drop_first(), x)
    }
}

proof fn lemma_insert_desc(s: Seq<(String, u64)>, x: (String, u64))
    ensures
        0 <= insert_desc_at(s, x) <= s.len(),
        insert_desc(s, x) == s.take(insert_desc_at(s, x)) + seq![x] + s.skip(insert_desc_at(s, x)),
        forall|i: int| 0 <= i < insert_desc_at(s, x) ==> !((#[trigger] s[i]).1 < x.1),
        insert_desc_at(s, x) < s.len() ==> s[insert_desc_at(s, x)].1 < x.1,
    decreases s.len(),
{
    if s.len() == 0 {
        assert(s.take(0) + seq![x] + s.skip(0) =~= seq![x]);
    } else if s[0].1 < x.1 {
        assert(s.take(0) + seq![x] + s.skip(0) =~= seq![x] + s);
    } else {
        lemma_insert_desc(s.drop_first(), x);
        let p = insert_desc_at(s.drop_first(), x);
        assert(seq![s[0]] + (s.drop_first().take(p) + seq![x] + s.drop_first().skip(p)) =~= s.take(p + 1) + seq![x]
            + s.skip(p + 1));
        assert forall|i: int| 0 <= i < p + 1 implies !((#[trigger] s[i]).1 < x.1) by {
            if i > 0 {
                assert(s[i] == s.drop_first()[i - 1]);
            }
        }
    }
}

fn copy_entry(e: &(String, u64)) -> (r: (String, u64))
    ensures
        r == *e,
{
    (e.0.clone(), e.1)
}

/// Sorts entries by decreasing size, stably.
pub fn sort_by_size(v: &Vec<(String, u64)>) -> (r: Vec<(String, u64)>)
    ensures
        r@ == by_size(v@),
{
    let mut r: Vec<(String, u64)> = Vec::new();
    let mut i: usize = 0;
    while i < v.len()
        invariant
            i <= v@.len(),
            r@ == by_size(v@.take(i as int)),
        decreases v@.len() - i,
    {
        assert(v@.take(i + 1).drop_last() =~= v@.take(i as int));
        let x = copy_entry(&v[i]);
        let ghost s = r@;
        proof {
            lemma_insert_desc(s, x);
        }
        let mut p: usize = 0;
        while p < r.len() && !(r[p].1 < x.1)
            invariant
                p <= r@.len(),
                s == r@,
                p <= insert_desc_at(s, x),
                forall|k: int| 0 <= k < insert_desc_at(s, x) ==> !((#[trigger] s[k]).1 < x.1),
                insert_desc_at(s, x) < s.len() ==> s[insert_desc_at(s, x)].1 < x.1,
                0 <= insert_desc_at(s, x) <= s.len(),
            decreases r@.len() - p,
        {
            p += 1;
        }
        proof {
            if p < r@.len() && p < insert_desc_at(s, x) {
                assert(!(s[p as int].1 < x.1));
            }
        }
        assert(p == insert_desc_at(s, x));
        r.insert(p, x);
        assert(r@ =~= s.take(p as int) + seq![x] + s.skip(p as int));
        i += 1;
    }
    assert(v@.take(v@.len() as int) =~= v@);
    r
}

/// A text right-aligned on ten characters, as `{:>10}` writes it.
pub open spec fn pad10(s: Seq<char>) -> Seq<char> {
    if s.len() < 10 {
        Seq::new((10 - s.len()) as nat, |i: int| ' ') + s
    } else {
        s
    }
}

fn push_pad10(line: &mut String, s: &str)
    ensures
        final(line)@ == old(line)@ + pad10(s@),
{
    let c = chars_of(s);
    let ghost start = line@;
    if c.len() < 10 {
        let mut k: usize = c.len();
        while k < 10
            invariant
                c@.len() <= k <= 10,
                line@ == start + Seq::new((k - c@.len()) as nat, |i: int| ' '),
            decreases 10 - k,
        {
            crate::text::push_char(line, ' ');
            assert(Seq::new((k + 1 - c@.len()) as nat, |i: int| ' ') =~= Seq::new((k - c@.len()) as nat, |i: int| ' ').push(' '));
            k += 1;
        }
    }
    crate::text::push_chars(line, c.as_slice());
}

/// Sum of the sizes, held at the largest `u64`.
pub open spec fn sizes_total(s: Seq<(String, u64)>) -> u64
    decreases s.len(),
{
    if s.len() == 0 {
        0
    } else {
        sat_add(sizes_total(s.drop_last()), s.last().1)
    }
}

fn total_of(s: &Vec<(String, u64)>) -> (r: u64)
    ensures
        r == sizes_total(s@),
{
    let mut t: u64 = 0;
    let mut i: usize = 0;
    while i < s.len()
        invariant
            i <= s@.len(),
            t == sizes_total(s@.take(i as int)),
        decreases s@.len() - i,
    {
        assert(s@.take(i + 1).drop_last() =~= s@.take(i as int));
        t = t.saturating_add(s[i].1);
        i += 1;
    }
    assert(s@.take(s@.len() as int) =~= s@);
    t
}

/// The first `n` entries, one line each: the size right-aligned, then the
/// name as `shown` writes it.
pub open spec fn top_lines(s: Seq<(String, u64)>, n: int, home: Option<Seq<char>>) -> Seq<Seq<char>> {
    let k = if s.len() < n { s.len() as int } else { n };
    Seq::new(k as nat, |i: int| "  "@ + pad10(format_size_spec(s[i].1 as nat)) + "  "@ + shown(s[i].0@, home))
}

/// How a path is shown: under the home directory as `~/…` when a home is
/// given, as it is otherwise.
pub open spec fn shown(path: Seq<char>, home: Option<Seq<char>>) -> Seq<char> {
    match home {
        Some(h) => if has_prefix(path, h + "/"@) { "~/"@ + path.skip(h.len() as int + 1) } else { path },
        None => path,
    }
}

fn shown_of(path: &String, home: &Option<String>) -> (r: String)
    ensures
        r@ == shown(path@, match home { Some(h) => Some(h@), None => None }),
{
    match home {
        Some(h) => {
            proof {
                reveal_strlit("/");
            }
            let prefix = cat(h.as_str(), "/");
            let p = chars_of(path.as_str());
            let pre = chars_of(prefix.as_str());
            if starts_with(p.as_slice(), pre.as_slice()) {
                let mut r = text("~/");
                crate::text::push_chars(&mut r, crate::text::slice_to_vec(p.as_slice(), pre.len(), p.len()).as_slice());
                r
            } else {
                path.clone()
            }
        },
        None => path.clone(),
    }
}

fn push_top(log: &mut Vec<String>, s: &Vec<(String, u64)>, n: usize, home: &Option<String>)
    ensures
        texts(final(log)@) == texts(old(log)@) + top_lines(s@, n as int, match home { Some(h) => Some(h@), None => None }),
{
    let ghost start = texts(log@);
    let ghost h = match home { Some(h) => Some(h@), None => None };
    let k: usize = if s.len() < n { s.len() } else { n };
    let mut i: usize = 0;
    while i < k
        invariant
            i <= k,
            k as int == (if s@.len() < n { s@.len() as int } else { n as int }),
            k <= s@.len(),
            h == match home { Some(h) => Some(h@), None => None },
            texts(log@) == start + top_lines(s@, n as int, h).take(i as int),
        decreases k - i,
    {
        let mut line = text("  ");
        push_pad10(&mut line, format_size(s[i].1).as_str());
        push_str(&mut line, "  ");
        push_str(&mut line, shown_of(&s[i].0, home).as_str());
        push_line(log, line);
        assert(top_lines(s@, n as int, h).take(i + 1) =~= top_lines(s@, n as int, h).take(i as int).push(
            "  "@ + pad10(format_size_spec(s@[i as int].1 as nat)) + "  "@ + shown(s@[i as int].0@, h)));
        i += 1;
    }
    assert(top_lines(s@, n as int, h).take(k as int) =~= top_lines(s@, n as int, h));
}

/// The report of the largest applications, from each bundle's name and size
/// when `/Applications` exists: how many and their total, then the fifteen
/// largest.
pub open spec fn large_apps_spec(apps: Option<Seq<(String, u64)>>) -> Seq<Seq<char>> {
    match apps {
        None => seq!["/Applications introuvable."@],
        Some(v) => {
            let s = by_size(v);
            seq!["Scan de /Applications..."@, decimal(v.len()) + " apps trouvées ("@ + format_size_spec(sizes_total(s) as nat)
                + ")"@, Seq::empty()] + top_lines(s, 15, None) + if v.len() > 15 {
                seq!["  ... et "@ + decimal((v.len() - 15) as nat) + " autres"@]
            } else {
                Seq::empty()
            }
        },
    }
}

proof fn lemma_by_size_len(s: Seq<(String, u64)>)
    ensures
        by_size(s).len() == s.len(),
    decreases s.len(),
{
    if s.len() > 0 {
        lemma_by_size_len(s.drop_last());
        lemma_insert_desc(by_size(s.drop_last()), s.last());
    }
}

/// Reports the largest applications.
pub fn list_large_apps(apps: &Option<Vec<(String, u64)>>) -> (r: Vec<String>)
    ensures
        texts(r@) == large_apps_spec(match apps { Some(v) => Some(v@), None => None }),
{
    let mut log: Vec<String> = Vec::new();
    match apps {
        None => {
            push_line(&mut log, text("/Applications introuvable."));
            assert(texts(log@) =~= seq!["/Applications introuvable."@]);
        },
        Some(v) => {
            let s = sort_by_size(v);
            proof {
                lemma_by_size_len(v@);
            }
            push_line(&mut log, text("Scan de /Applications..."));
            let mut line = String::new();
            push_decimal(&mut line, v.len() as u64);
            push_str(&mut line, " apps trouvées (");
            push_str(&mut line, format_size(total_of(&s)).as_str());
            push_str(&mut line, ")");
            push_line(&mut log, line);
            let blank = String::new();
            assert(blank@ =~= Seq::<char>::empty());
            push_line(&mut log, blank);
            let ghost head = texts(log@);
            push_top(&mut log, &s, 15, &None);
            let ghost body = texts(log@);
            if v.len() > 15 {
                let mut line = text("  ... et ");
                push_decimal(&mut line, (v.len() - 15) as u64);
                push_str(&mut line, " autres");
                push_line(&mut log, line);
            }
            assert(texts(log@) =~= large_apps_spec(Some(v@)));
        },
    }
    log
}

/// The size from which a file counts as large: 500 Mo.
pub const LARGE_FILE: u64 = 524288000;

/// The report of the large files under the home directory, from each one's
/// path and size: how many, the twenty largest and their total.
pub open spec fn large_files_spec(home: Seq<char>, files: Seq<(String, u64)>) -> Seq<Seq<char>> {
    let s = by_size(files);
    seq!["Recherche des fichiers > "@ + format_size_spec(LARGE_FILE as nat) + " dans ~..."@] + if files.len() == 0 {
        seq!["  Aucun fichier volumineux trouvé."@]
    } else {
        seq![decimal(files.len()) + " fichier(s) trouvé(s):"@, Seq::empty()] + top_lines(s, 20, Some(home))
            + (if files.len() > 20 { seq!["  ... et "@ + decimal((files.len() - 20) as nat) + " autres"@] } else { Seq::empty() })
            + seq!["Total: "@ + format_size_spec(sizes_total(s) as nat)]
    }
}

/// Reports the large files under the home directory.
pub fn find_large_files(home: &str, files: &Vec<(String, u64)>) -> (r: Vec<String>)
    ensures
        texts(r@) == large_files_spec(home@, files@),
{
    let mut log: Vec<String> = Vec::new();
    let mut line = text("Recherche des fichiers > ");
    push_str(&mut line, format_size(LARGE_FILE).as_str());
    push_str(&mut line, " dans ~...");
    push_line(&mut log, line);
    let ghost head = texts(log@);
    if files.len() == 0 {
        push_line(&mut log, text("  Aucun fichier volumineux trouvé."));
        assert(texts(log@) =~= large_files_spec(home@, files@));
        return log;
    }
    let s = sort_by_size(files);
    proof {
        lemma_by_size_len(files@);
    }
    let mut line = String::new();
    push_decimal(&mut line, files.len() as u64);
    push_str(&mut line, " fichier(s) trouvé(s):");
    push_line(&mut log, line);
    let blank = String::new();
    assert(blank@ =~= Seq::<char>::empty());
    push_line(&mut log, blank);
    let h = Some(text(home));
    push_top(&mut log, &s, 20, &h);
    if files.len() > 20 {
        let mut line = text("  ... et ");
        push_decimal(&mut line, (files.len() - 20) as u64);
        push_str(&mut line, " autres");
        push_line(&mut log, line);
    }
    push_line(&mut log, cat("Total: ", format_size(total_of(&s)).as_str()));
    assert(texts(log@) =~= large_files_spec(home@, files@));
    log
}

/// Names the large-file search never enters or counts: hidden ones, the
/// library, package folders and the trash.
pub open spec fn scan_skipped(name: Seq<char>) -> bool {
    has_prefix(name, "."@) || name == "Library"@ || name == "node_modules"@ || name == ".Trash"@
}

/// Whether the large-file search passes over an entry of this name.
pub fn scan_skips(name: &str) -> (r: bool)
    ensures
        r == scan_skipped(name@),
{
    let n = chars_of(name);
    starts_with(n.as_slice(), chars_of(".").as_slice()) || chars_eq(n.as_slice(), chars_of("Library").as_slice())
        || chars_eq(n.as_slice(), chars_of("node_modules").as_slice()) || chars_eq(n.as_slice(), chars_of(".Trash").as_slice())
}

/// Whether the search still reads a folder at this depth: no deeper than
/// eight levels below the home directory.
pub fn scan_reaches(depth: u32) -> (r: bool)
    ensures
        r == (depth <= 8),
{
    depth <= 8
}

} // verus!
