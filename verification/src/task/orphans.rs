//! Leftovers of applications that are no longer installed.
//!
//! Dragging an application to the trash takes the bundle and leaves
//! everything else: its support directory, its container, its preferences,
//! its saved state. This module finds those, by comparing the bundle
//! identifiers scattered through `~/Library` with the ones still installed.
//!
//! The matching is deliberately conservative. A directory is only ever
//! reported when its name *is* a bundle identifier, so hand-named directories
//! (`Application Support/Sublime Text`) are never attributed to anything, and
//! an identifier related to an installed one — a helper, a framework, an
//! extension — is treated as installed.

use vstd::prelude::*;
use crate::format::{tilde, tilde_spec};
use crate::sys::fsx::{home_join, join, join_spec, Removal};
use crate::task::clean::absorb;
use crate::task::docker::sat_add;
use crate::task::journal::{sort_texts, text_less};
use crate::task::scan::extension_spec;
use crate::task::texts;
use crate::text::{
    chars_eq, chars_of, has_prefix, has_suffix, is_ascii_alnum, push_chars, push_str, slice_to_vec, starts_with,
    ends_with, string_of, trim, trim_chars,
};

verus! {

fn same(a: &Vec<char>, b: &str) -> (r: bool)
    ensures
        r == (a@ == b@),
{
    chars_eq(a.as_slice(), chars_of(b).as_slice())
}

fn owned(s: &str) -> (r: String)
    ensures
        r@ == s@,
{
    let mut r = String::new();
    push_str(&mut r, s);
    r
}

/// Identifier namespaces belonging to macOS itself: `com.apple.`, and the
/// `is.workflow.` that Shortcuts still carries from before Apple bought it.
/// The bare namespace counts too.
pub open spec fn is_apple_spec(id: Seq<char>) -> bool {
    ||| has_prefix(id, "com.apple."@)
    ||| id == "com.apple"@
    ||| has_prefix(id, "is.workflow."@)
    ||| id == "is.workflow"@
}

/// Whether an identifier belongs to macOS, and so is never a leftover.
pub fn is_apple(id: &str) -> (r: bool)
    ensures
        r == is_apple_spec(id@),
{
    let c = chars_of(id);
    starts_with(c.as_slice(), chars_of("com.apple.").as_slice()) || same(&c, "com.apple")
        || starts_with(c.as_slice(), chars_of("is.workflow.").as_slice()) || same(&c, "is.workflow")
}

/// How many times a character occurs in a text.
pub open spec fn count_char(s: Seq<char>, c: char) -> nat
    decreases s.len(),
{
    if s.len() == 0 {
        0
    } else {
        count_char(s.drop_last(), c) + if s.last() == c { 1nat } else { 0nat }
    }
}

/// The characters a bundle identifier is made of.
pub open spec fn id_char(c: char) -> bool {
    is_ascii_alnum(c) || c == '.' || c == '-' || c == '_'
}

/// Whether a name is a bundle identifier rather than a human-chosen name:
/// two dots at least, none at either end, and nothing but letters, digits,
/// dots, dashes and underscores. A one-word directory could be anything,
/// and guessing is how a cleaner eats someone's data.
pub open spec fn looks_like_bundle_id_spec(name: Seq<char>) -> bool {
    &&& count_char(name, '.') >= 2
    &&& !has_prefix(name, seq!['.'])
    &&& !has_suffix(name, seq!['.'])
    &&& forall|i: int| 0 <= i < name.len() ==> id_char(#[trigger] name[i])
}

/// Whether a name is a bundle identifier.
pub fn looks_like_bundle_id(name: &str) -> (r: bool)
    ensures
        r == looks_like_bundle_id_spec(name@),
{
    let c = chars_of(name);
    let mut dots: usize = 0;
    let mut ok = true;
    let mut i: usize = 0;
    while i < c.len()
        invariant
            i <= c@.len(),
            c@ == name@,
            dots == count_char(c@.take(i as int), '.'),
            dots <= i,
            ok == (forall|k: int| 0 <= k < i ==> id_char(#[trigger] c@[k])),
        decreases c@.len() - i,
    {
        assert(c@.take(i + 1).drop_last() =~= c@.take(i as int));
        assert(c@.take(i + 1).last() == c@[i as int]);
        let ch = c[i];
        if ch == '.' {
            dots += 1;
        }
        if !(('0' <= ch && ch <= '9') || ('a' <= ch && ch <= 'z') || ('A' <= ch && ch <= 'Z') || ch == '.'
            || ch == '-' || ch == '_') {
            ok = false;
        }
        i += 1;
    }
    assert(c@.take(c@.len() as int) =~= c@);
    let dot: Vec<char> = vec!['.'];
    assert(dot@ =~= seq!['.']);
    dots >= 2 && !starts_with(c.as_slice(), dot.as_slice()) && !ends_with(c.as_slice(), dot.as_slice()) && ok
}

/// A team identifier: ten ASCII letters or digits, with a digit among them.
pub open spec fn team_id(s: Seq<char>) -> bool {
    &&& s.len() == 10
    &&& forall|i: int| 0 <= i < s.len() ==> is_ascii_alnum(#[trigger] s[i])
    &&& exists|i: int| 0 <= i < s.len() && '0' <= #[trigger] s[i] && s[i] <= '9'
}

/// The name without a leading team identifier and its dot.
pub open spec fn without_team(name: Seq<char>) -> Seq<char> {
    match crate::text::split_once(name, '.') {
        Some((team, rest)) => if team_id(team) {
            rest
        } else {
            name
        },
        None => name,
    }
}

/// The identifier hidden inside a container name: a team identifier comes
/// off first, then one of the three shared-container markers
/// (`systemgroup.`, `groups.`, `group.`, tried in that order).
pub open spec fn canonical_id_spec(name: Seq<char>) -> Seq<char> {
    let n = without_team(name);
    if has_prefix(n, "systemgroup."@) {
        n.skip("systemgroup."@.len() as int)
    } else if has_prefix(n, "groups."@) {
        n.skip("groups."@.len() as int)
    } else if has_prefix(n, "group."@) {
        n.skip("group."@.len() as int)
    } else {
        n
    }
}

fn is_team_id(s: &Vec<char>) -> (r: bool)
    ensures
        r == team_id(s@),
{
    if s.len() != 10 {
        return false;
    }
    let mut alnum = true;
    let mut digit = false;
    let mut i: usize = 0;
    while i < s.len()
        invariant
            i <= s@.len(),
            alnum == (forall|k: int| 0 <= k < i ==> is_ascii_alnum(#[trigger] s@[k])),
            digit == (exists|k: int| 0 <= k < i && '0' <= #[trigger] s@[k] && s@[k] <= '9'),
        decreases s@.len() - i,
    {
        let ch = s[i];
        if !(('0' <= ch && ch <= '9') || ('a' <= ch && ch <= 'z') || ('A' <= ch && ch <= 'Z')) {
            alnum = false;
        }
        if '0' <= ch && ch <= '9' {
            digit = true;
        }
        proof {
            if !digit {
                assert forall|k: int| 0 <= k < i + 1 implies !('0' <= #[trigger] s@[k] && s@[k] <= '9') by {
                    if k == i {
                    }
                }
            }
        }
        i += 1;
    }
    alnum && digit
}

fn strip(n: &Vec<char>, prefix: &str) -> (r: Option<Vec<char>>)
    ensures
        has_prefix(n@, prefix@) ==> (r matches Some(x) && x@ == n@.skip(prefix@.len() as int)),
        !has_prefix(n@, prefix@) ==> r is None,
{
    let p = chars_of(prefix);
    if starts_with(n.as_slice(), p.as_slice()) {
        Some(slice_to_vec(n.as_slice(), p.len(), n.len()))
    } else {
        None
    }
}

/// The identifier hidden inside a container name. Group containers wear a
/// team identifier in front, a `group.` marker, or both:
/// `ABCDE12345.group.com.acme` is really `com.acme`.
pub fn canonical_id(name: &str) -> (r: String)
    ensures
        r@ == canonical_id_spec(name@),
{
    let c = chars_of(name);
    let n = match crate::text::split_once_chars(c.as_slice(), '.') {
        Some((team, rest)) => if is_team_id(&team) {
            rest
        } else {
            c
        },
        None => c,
    };
    assert(n@ == without_team(name@));
    if let Some(x) = strip(&n, "systemgroup.") {
        return string_of(x.as_slice());
    }
    if let Some(x) = strip(&n, "groups.") {
        return string_of(x.as_slice());
    }
    if let Some(x) = strip(&n, "group.") {
        return string_of(x.as_slice());
    }
    string_of(n.as_slice())
}

/// `a` names something inside `b`'s namespace: `b`, a dot, then more.
pub open spec fn child_of(a: Seq<char>, b: Seq<char>) -> bool {
    has_prefix(a, b + seq!['.'])
}

/// Whether an identifier belongs to something still installed: macOS
/// itself, an installed identifier, a helper of one (`com.acme.app.helper`),
/// or the application a bundle of it belongs to.
pub open spec fn is_installed_spec(id: Seq<char>, installed: Seq<Seq<char>>) -> bool {
    is_apple_spec(id) || exists|k: int| 0 <= k < installed.len() && #[trigger] related(id, installed[k])
}

/// The two identifiers are one, or one is a child of the other.
pub open spec fn related(id: Seq<char>, known: Seq<char>) -> bool {
    known == id || child_of(id, known) || child_of(known, id)
}

fn dotted(s: &str) -> (r: Vec<char>)
    ensures
        r@ == s@ + seq!['.'],
{
    let mut v = chars_of(s);
    v.push('.');
    v
}

/// Whether an identifier belongs to something still installed.
pub fn is_installed(id: &str, installed: &[String]) -> (r: bool)
    ensures
        r == is_installed_spec(id@, texts(installed@)),
{
    if is_apple(id) {
        return true;
    }
    let c = chars_of(id);
    let c_dot = dotted(id);
    let mut i: usize = 0;
    while i < installed.len()
        invariant
            i <= installed@.len(),
            c@ == id@,
            c_dot@ == id@ + seq!['.'],
            forall|k: int| 0 <= k < i ==> !related(id@, #[trigger] texts(installed@)[k]),
        decreases installed@.len() - i,
    {
        let known = chars_of(installed[i].as_str());
        let k_dot = dotted(installed[i].as_str());
        if chars_eq(known.as_slice(), c.as_slice()) || starts_with(c.as_slice(), k_dot.as_slice())
            || starts_with(known.as_slice(), c_dot.as_slice()) {
            assert(related(id@, texts(installed@)[i as int]));
            return true;
        }
        i += 1;
    }
    false
}

/// Bundle kinds that carry an identifier and count as installed.
pub open spec fn bundle_kind(path: Seq<char>) -> bool {
    extension_spec(path) == Some("app"@) || extension_spec(path) == Some("prefPane"@)
}

/// Whether a path is an application or preference pane bundle.
pub fn is_bundle(path: &str) -> (r: bool)
    ensures
        r == bundle_kind(path@),
{
    match crate::task::scan::extension(path) {
        None => false,
        Some(e) => {
            let x = chars_of(e.as_str());
            same(&x, "app") || same(&x, "prefPane")
        },
    }
}

/// Where a bundle can legitimately live, and how deep to look: the system
/// folders, then the user's own. Application Support gets a deeper sweep
/// because that is where updaters and helper applications live.
pub open spec fn app_roots_spec(home: Seq<char>) -> Seq<(Seq<char>, usize)> {
    seq![
        ("/Applications"@, 2usize),
        ("/System/Applications"@, 2usize),
        ("/System/Library/CoreServices"@, 2usize),
        ("/Library/PreferencePanes"@, 1usize),
        ("/Library/Application Support"@, 4usize),
        (join_spec(home, "Applications"@), 2usize),
        (join_spec(home, "Library/PreferencePanes"@), 1usize),
        (join_spec(home, "Library/Application Support"@), 4usize),
    ]
}

/// The folders, as plain values.
pub open spec fn root_views(r: Seq<(String, usize)>) -> Seq<(Seq<char>, usize)> {
    r.map_values(|x: (String, usize)| (x.0@, x.1))
}

/// The folders searched for installed bundles, each with its depth.
pub fn app_roots(home: &str) -> (r: Vec<(String, usize)>)
    ensures
        root_views(r@) == app_roots_spec(home@),
{
    let r = vec![
        (owned("/Applications"), 2usize),
        (owned("/System/Applications"), 2usize),
        (owned("/System/Library/CoreServices"), 2usize),
        (owned("/Library/PreferencePanes"), 1usize),
        (owned("/Library/Application Support"), 4usize),
        (home_join(home, "Applications"), 2usize),
        (home_join(home, "Library/PreferencePanes"), 1usize),
        (home_join(home, "Library/Application Support"), 4usize),
    ];
    assert(root_views(r@) =~= app_roots_spec(home@));
    r
}

/// What the search for bundles does with one entry of a folder.
#[derive(Debug, Clone, Copy, PartialEq, Eq, Structural)]
pub enum Found {
    /// A bundle: kept, and not descended into, since the helpers inside
    /// belong to its identifier anyway.
    Bundle,
    /// A folder to search, at the depth given.
    Descend(usize),
    /// Neither.
    Skip,
}

/// What the search for bundles does with an entry met at a given remaining
/// depth.
pub open spec fn search_step(path: Seq<char>, is_dir: bool, depth: usize) -> Found {
    if bundle_kind(path) {
        Found::Bundle
    } else if depth > 0 && is_dir {
        Found::Descend((depth - 1) as usize)
    } else {
        Found::Skip
    }
}

/// An application filed in a folder of `/Applications` or of
/// `~/Applications` (`/Applications/Setapp/X.app`, `/Applications/Utilities/
/// Y.app`) is installed: searching from that root descends into any folder
/// that is not itself a bundle, and there finds the bundle.
pub proof fn bundles_in_application_folders_are_found(home: Seq<char>, folder: Seq<char>, bundle: Seq<char>)
    requires
        !bundle_kind(folder),
        bundle_kind(bundle),
    ensures
        exists|k: int| 0 <= k < app_roots_spec(home).len() && (#[trigger] app_roots_spec(home)[k]).0 == "/Applications"@
            && (search_step(folder, true, app_roots_spec(home)[k].1) matches Found::Descend(d)
                && search_step(bundle, false, d) == Found::Bundle),
        exists|k: int| 0 <= k < app_roots_spec(home).len() && (#[trigger] app_roots_spec(home)[k]).0 == join_spec(home, "Applications"@)
            && (search_step(folder, true, app_roots_spec(home)[k].1) matches Found::Descend(d)
                && search_step(bundle, false, d) == Found::Bundle),
{
    assert(app_roots_spec(home)[0].0 == "/Applications"@);
    assert(app_roots_spec(home)[5].0 == join_spec(home, "Applications"@));
}

/// Whether the search, starting at a root with `depth` folders left to
/// descend, goes down through each of `folders` in turn and then finds
/// `bundle` inside the last one.
pub open spec fn descends_to(folders: Seq<Seq<char>>, bundle: Seq<char>, depth: usize) -> bool
    decreases folders.len(),
{
    if folders.len() == 0 {
        search_step(bundle, true, depth) == Found::Bundle
    } else {
        match search_step(folders[0], true, depth) {
            Found::Descend(d) => descends_to(folders.drop_first(), bundle, d),
            _ => false,
        }
    }
}

proof fn lemma_descends_to(folders: Seq<Seq<char>>, bundle: Seq<char>, depth: usize)
    requires
        folders.len() <= depth,
        forall|i: int| 0 <= i < folders.len() ==> !bundle_kind(#[trigger] folders[i]),
        bundle_kind(bundle),
    ensures
        descends_to(folders, bundle, depth),
    decreases folders.len(),
{
    if folders.len() > 0 {
        assert(!bundle_kind(folders[0]));
        let rest = folders.drop_first();
        assert forall|i: int| 0 <= i < rest.len() implies !bundle_kind(#[trigger] rest[i]) by {
            assert(rest[i] == folders[i + 1]);
        }
        lemma_descends_to(rest, bundle, (depth - 1) as usize);
    }
}

/// Whether searching from the folder `root` of the installed-bundle search
/// goes down through `folders` and finds `bundle` there.
pub open spec fn root_finds(home: Seq<char>, root: Seq<char>, folders: Seq<Seq<char>>, bundle: Seq<char>) -> bool {
    exists|k: int| 0 <= k < app_roots_spec(home).len() && (#[trigger] app_roots_spec(home)[k]).0 == root
        && descends_to(folders, bundle, app_roots_spec(home)[k].1)
}

/// Applications filed one folder down (`/Applications/Setapp/X.app`, the
/// Apple utilities in `/System/Applications/Utilities`, the same in
/// `~/Applications`) are found among the installed bundles, and so are the
/// updaters and helpers that vendors keep up to three folders down in
/// Application Support, the system's and the user's.
pub proof fn nested_bundles_are_installed(home: Seq<char>, folders: Seq<Seq<char>>, bundle: Seq<char>)
    requires
        forall|i: int| 0 <= i < folders.len() ==> !bundle_kind(#[trigger] folders[i]),
        bundle_kind(bundle),
    ensures
        folders.len() <= 1 ==> root_finds(home, "/Applications"@, folders, bundle)
            && root_finds(home, "/System/Applications"@, folders, bundle)
            && root_finds(home, join_spec(home, "Applications"@), folders, bundle),
        folders.len() <= 3 ==> root_finds(home, "/Library/Application Support"@, folders, bundle)
            && root_finds(home, join_spec(home, "Library/Application Support"@), folders, bundle),
{
    let r = app_roots_spec(home);
    if folders.len() <= 3 {
        lemma_descends_to(folders, bundle, 4);
        assert(r[4].0 == "/Library/Application Support"@ && r[4].1 == 4);
        assert(r[7].0 == join_spec(home, "Library/Application Support"@) && r[7].1 == 4);
    }
    if folders.len() <= 1 {
        lemma_descends_to(folders, bundle, 2);
        assert(r[0].0 == "/Applications"@ && r[0].1 == 2);
        assert(r[1].0 == "/System/Applications"@ && r[1].1 == 2);
        assert(r[5].0 == join_spec(home, "Applications"@) && r[5].1 == 2);
    }
}

/// What to do with an entry met at a given remaining depth.
pub fn classify(path: &str, is_dir: bool, depth: usize) -> (r: Found)
    ensures
        r == search_step(path@, is_dir, depth),
        r == (if bundle_kind(path@) {
            Found::Bundle
        } else if depth > 0 && is_dir {
            Found::Descend((depth - 1) as usize)
        } else {
            Found::Skip
        }),
{
    if is_bundle(path) {
        Found::Bundle
    } else if depth > 0 && is_dir {
        Found::Descend(depth - 1)
    } else {
        Found::Skip
    }
}

/// Where an application keeps the extensions and helpers it ships with.
///
/// These carry identifiers of their own, and not ones derived from their
/// parent, so they have to be read like applications.
pub open spec fn nested_dirs_spec(bundle: Seq<char>) -> Seq<Seq<char>> {
    seq![
        join_spec(bundle, "Contents/PlugIns"@),
        join_spec(bundle, "Contents/Extensions"@),
        join_spec(bundle, "Contents/XPCServices"@),
        join_spec(bundle, "Contents/Applications"@),
        join_spec(bundle, "Contents/Library/LoginItems"@),
        join_spec(bundle, "Contents/Library/QuickLook"@),
    ]
}

/// The folders inside a bundle that hold nested bundles, one level deep.
pub fn nested_bundle_dirs(bundle: &str) -> (r: Vec<String>)
    ensures
        texts(r@) == nested_dirs_spec(bundle@),
{
    let r = vec![
        join(bundle, "Contents/PlugIns"),
        join(bundle, "Contents/Extensions"),
        join(bundle, "Contents/XPCServices"),
        join(bundle, "Contents/Applications"),
        join(bundle, "Contents/Library/LoginItems"),
        join(bundle, "Contents/Library/QuickLook"),
    ];
    assert(texts(r@) =~= nested_dirs_spec(bundle@));
    r
}

/// The file a bundle's identifier is read from. Anything without one cannot
/// carry an identifier, and is not worth a process to find out.
pub fn info_plist(bundle: &str) -> (r: String)
    ensures
        r@ == join_spec(bundle@, "Contents/Info.plist"@),
{
    join(bundle, "Contents/Info.plist")
}

/// The identifier `plutil -extract CFBundleIdentifier raw` printed, trimmed;
/// none when it printed nothing, failed, or was not run because the bundle
/// has no `Info.plist`.
pub fn bundle_id(plutil_stdout: Option<&str>) -> (r: Option<String>)
    ensures
        match plutil_stdout {
            None => r is None,
            Some(out) => if trim(out@).len() > 0 {
                r matches Some(id) && id@ == trim(out@)
            } else {
                r is None
            },
        },
{
    match plutil_stdout {
        None => None,
        Some(out) => {
            let t = trim_chars(chars_of(out).as_slice());
            if t.len() > 0 {
                Some(string_of(t.as_slice()))
            } else {
                None
            }
        },
    }
}

/// Each text is strictly before the next, so none occurs twice.
pub open spec fn strictly_ascending(s: Seq<Seq<char>>) -> bool {
    forall|i: int, j: int| 0 <= i < j < s.len() ==> text_less(s[i], s[j])
}

proof fn lemma_less_trans(a: Seq<char>, b: Seq<char>, c: Seq<char>)
    requires
        text_less(a, b),
        text_less(b, c),
    ensures
        text_less(a, c),
{
    crate::task::journal::lemma_text_less_total(a, b);
    crate::task::journal::lemma_text_less_total(b, c);
    crate::task::journal::lemma_text_less_total(a, c);
    crate::task::journal::lemma_text_less_trans(a, b, c);
}

fn copy_text(s: &String) -> (r: String)
    ensures
        r == *s,
{
    s.clone()
}

/// The texts sorted, each kept once.
pub fn sorted_unique(items: Vec<String>) -> (r: Vec<String>)
    ensures
        strictly_ascending(texts(r@)),
        forall|i: int| 0 <= i < r@.len() ==> items@.contains(#[trigger] r@[i]),
        forall|i: int| 0 <= i < items@.len() ==> texts(r@).contains(#[trigger] items@[i]@),
{
    let ghost all = items@;
    let s = sort_texts(items);
    let mut r: Vec<String> = Vec::new();
    let mut i: usize = 0;
    while i < s.len()
        invariant
            i <= s@.len(),
            forall|a: int, b: int| 0 <= a < b < s@.len() ==> !text_less(s@[b]@, s@[a]@),
            strictly_ascending(texts(r@)),
            forall|k: int| 0 <= k < r@.len() ==> s@.contains(#[trigger] r@[k]),
            forall|k: int| 0 <= k < i ==> texts(r@).contains(#[trigger] s@[k]@),
            i > 0 ==> r@.len() > 0 && r@.last()@ == s@[i - 1]@,
            i == 0 ==> r@.len() == 0,
        decreases s@.len() - i,
    {
        let ghost before = r@;
        let n = r.len();
        let fresh = n == 0 || !chars_eq(chars_of(r[n - 1].as_str()).as_slice(), chars_of(s[i].as_str()).as_slice());
        if fresh {
            proof {
                if n > 0 {
                    let last = before.last()@;
                    let x = s@[i as int]@;
                    assert(texts(before)[before.len() - 1] == last);
                    assert(!text_less(x, last));
                    crate::task::journal::lemma_text_less_total(last, x);
                    assert(text_less(last, x));
                    assert forall|a: int| 0 <= a < before.len() implies text_less(#[trigger] texts(before)[a], x) by {
                        if a < before.len() - 1 {
                            lemma_less_trans(texts(before)[a], last, x);
                        }
                    }
                }
            }
            r.push(copy_text(&s[i]));
            proof {
                assert forall|a: int, b: int| 0 <= a < b < r@.len() implies text_less(texts(r@)[a], texts(r@)[b]) by {
                    if b < before.len() {
                        assert(texts(r@)[a] == texts(before)[a]);
                        assert(texts(r@)[b] == texts(before)[b]);
                    } else {
                        assert(texts(r@)[a] == texts(before)[a]);
                    }
                }
                assert forall|k: int| 0 <= k < r@.len() implies s@.contains(#[trigger] r@[k]) by {
                    if k < before.len() {
                        assert(r@[k] == before[k]);
                    } else {
                        assert(r@[k] == s@[i as int]);
                    }
                }
                assert forall|k: int| 0 <= k < i + 1 implies texts(r@).contains(#[trigger] s@[k]@) by {
                    if k < i {
                        let x = choose|x: int| 0 <= x < texts(before).len() && texts(before)[x] == s@[k]@;
                        assert(texts(r@)[x] == texts(before)[x]);
                    } else {
                        assert(texts(r@)[before.len() as int] == s@[k]@);
                    }
                }
            }
        } else {
            proof {
                assert forall|k: int| 0 <= k < i + 1 implies texts(r@).contains(#[trigger] s@[k]@) by {
                    if k == i {
                        assert(texts(r@)[r@.len() - 1] == s@[k]@);
                    }
                }
            }
        }
        i += 1;
    }
    proof {
        assert forall|k: int| 0 <= k < r@.len() implies all.contains(#[trigger] r@[k]) by {
            let x = choose|x: int| 0 <= x < s@.len() && s@[x] == r@[k];
            vstd::seq_lib::to_multiset_contains(s@, s@[x]);
            vstd::seq_lib::to_multiset_contains(all, s@[x]);
        }
        assert forall|k: int| 0 <= k < all.len() implies texts(r@).contains(#[trigger] all[k]@) by {
            vstd::seq_lib::to_multiset_contains(all, all[k]);
            vstd::seq_lib::to_multiset_contains(s@, all[k]);
            let x = choose|x: int| 0 <= x < s@.len() && s@[x] == all[k];
            assert(texts(r@).contains(s@[x]@));
        }
    }
    r
}

/// Some bundle gave this identifier.
pub open spec fn was_read(read: Seq<Option<String>>, id: Seq<char>) -> bool {
    exists|k: int| 0 <= k < read.len() && ((#[trigger] read[k]) matches Some(x) && x@ == id)
}

/// The identifiers of every installed bundle, sorted and each kept once,
/// from what was read out of each bundle found (none where nothing was).
pub fn installed(read: Vec<Option<String>>) -> (r: Vec<String>)
    ensures
        strictly_ascending(texts(r@)),
        forall|i: int| 0 <= i < r@.len() ==> was_read(read@, #[trigger] r@[i]@),
        forall|i: int| 0 <= i < read@.len() && (#[trigger] read@[i]) is Some ==> texts(r@).contains(read@[i]->0@),
{
    let mut ids: Vec<String> = Vec::new();
    let mut i: usize = 0;
    while i < read.len()
        invariant
            i <= read@.len(),
            forall|k: int| 0 <= k < ids@.len() ==> was_read(read@, #[trigger] ids@[k]@),
            forall|k: int| 0 <= k < i && (#[trigger] read@[k]) is Some ==> ids@.contains(read@[k]->0),
        decreases read@.len() - i,
    {
        let ghost before = ids@;
        match &read[i] {
            Some(id) => {
                ids.push(copy_text(id));
                proof {
                    assert(ids@[before.len() as int] == read@[i as int]->0);
                }
            },
            None => {},
        }
        proof {
            assert forall|k: int| 0 <= k < ids@.len() implies was_read(read@, #[trigger] ids@[k]@) by {
                if k < before.len() {
                    assert(ids@[k] == before[k]);
                } else {
                    assert(read@[i as int] == Some(ids@[k]));
                }
            }
            assert forall|k: int| 0 <= k < i + 1 && (#[trigger] read@[k]) is Some implies ids@.contains(read@[k]->0) by {
                if k < i {
                    let x = choose|x: int| 0 <= x < before.len() && before[x] == read@[k]->0;
                    assert(ids@[x] == before[x]);
                } else {
                    assert(ids@[before.len() as int] == read@[k]->0);
                }
            }
        }
        i += 1;
    }
    let ghost gathered = ids@;
    let r = sorted_unique(ids);
    proof {
        assert forall|k: int| 0 <= k < read@.len() && (#[trigger] read@[k]) is Some implies texts(r@).contains(read@[k]->0@) by {
            let x = choose|x: int| 0 <= x < gathered.len() && gathered[x] == read@[k]->0;
            assert(texts(r@).contains(gathered[x]@));
        }
        assert forall|k: int| 0 <= k < r@.len() implies was_read(read@, #[trigger] r@[k]@) by {
            let x = choose|x: int| 0 <= x < gathered.len() && gathered[x] == r@[k];
            assert(was_read(read@, gathered[x]@));
        }
    }
    r
}

/// The places an application leaves things behind, what to call them, and
/// the extension a file there carries (none: the entries are folders).
pub open spec fn haunts_spec(home: Seq<char>) -> Seq<(Seq<char>, Seq<char>, Option<Seq<char>>)> {
    seq![
        ("support"@, join_spec(home, "Library/Application Support"@), None),
        ("container"@, join_spec(home, "Library/Containers"@), None),
        ("group container"@, join_spec(home, "Library/Group Containers"@), None),
        ("cache"@, join_spec(home, "Library/Caches"@), None),
        ("logs"@, join_spec(home, "Library/Logs"@), None),
        ("web storage"@, join_spec(home, "Library/HTTPStorages"@), None),
        ("web data"@, join_spec(home, "Library/WebKit"@), None),
        ("preferences"@, join_spec(home, "Library/Preferences"@), Some("plist"@)),
        ("saved state"@, join_spec(home, "Library/Saved Application State"@), Some("savedState"@)),
        ("cookies"@, join_spec(home, "Library/Cookies"@), Some("binarycookies"@)),
        ("startup agent"@, join_spec(home, "Library/LaunchAgents"@), Some("plist"@)),
    ]
}

/// An optional text, as a plain value.
pub open spec fn opt_view(o: Option<String>) -> Option<Seq<char>> {
    match o {
        Some(x) => Some(x@),
        None => None,
    }
}

/// The haunts, as plain values.
pub open spec fn haunt_views(r: Seq<(String, String, Option<String>)>) -> Seq<(Seq<char>, Seq<char>, Option<Seq<char>>)> {
    r.map_values(|h: (String, String, Option<String>)| (h.0@, h.1@, opt_view(h.2)))
}

/// The places an application leaves things behind.
pub fn haunts(home: &str) -> (r: Vec<(String, String, Option<String>)>)
    ensures
        haunt_views(r@) == haunts_spec(home@),
{
    let r = vec![
        (owned("support"), home_join(home, "Library/Application Support"), None),
        (owned("container"), home_join(home, "Library/Containers"), None),
        (owned("group container"), home_join(home, "Library/Group Containers"), None),
        (owned("cache"), home_join(home, "Library/Caches"), None),
        (owned("logs"), home_join(home, "Library/Logs"), None),
        (owned("web storage"), home_join(home, "Library/HTTPStorages"), None),
        (owned("web data"), home_join(home, "Library/WebKit"), None),
        (owned("preferences"), home_join(home, "Library/Preferences"), Some(owned("plist"))),
        (owned("saved state"), home_join(home, "Library/Saved Application State"), Some(owned("savedState"))),
        (owned("cookies"), home_join(home, "Library/Cookies"), Some(owned("binarycookies"))),
        (owned("startup agent"), home_join(home, "Library/LaunchAgents"), Some(owned("plist"))),
    ];
    assert(haunt_views(r@) =~= haunts_spec(home@));
    r
}

/// The name an entry of a haunt is matched by: a folder's whole name, or a
/// file's name with the haunt's extension taken off. Nothing when the entry
/// has not the expected shape (`need_dir`: a haunt of folders only takes
/// folders).
pub open spec fn stem_spec(name: Seq<char>, is_dir: bool, ext: Option<Seq<char>>, need_dir: bool) -> Option<Seq<char>> {
    match ext {
        None => if need_dir && !is_dir {
            None
        } else {
            Some(name)
        },
        Some(w) => if has_suffix(name, seq!['.'] + w) {
            Some(name.take(name.len() - w.len() - 1))
        } else {
            None
        },
    }
}

/// The name an entry of a haunt is matched by.
pub fn stem(name: &str, is_dir: bool, ext: &Option<String>, need_dir: bool) -> (r: Option<String>)
    ensures
        opt_view(r) == stem_spec(name@, is_dir, opt_view(*ext), need_dir),
{
    match ext {
        None => if need_dir && !is_dir {
            None
        } else {
            Some(owned(name))
        },
        Some(w) => {
            let c = chars_of(name);
            let mut suffix: Vec<char> = vec!['.'];
            let wc = chars_of(w.as_str());
            let mut k: usize = 0;
            while k < wc.len()
                invariant
                    k <= wc@.len(),
                    suffix@ == seq!['.'] + wc@.take(k as int),
                decreases wc@.len() - k,
            {
                suffix.push(wc[k]);
                assert(wc@.take(k + 1) =~= wc@.take(k as int).push(wc@[k as int]));
                k += 1;
            }
            assert(wc@.take(wc@.len() as int) =~= wc@);
            if ends_with(c.as_slice(), suffix.as_slice()) {
                Some(string_of(slice_to_vec(c.as_slice(), 0, c.len() - suffix.len()).as_slice()))
            } else {
                None
            }
        },
    }
}

/// The identifier an entry of a haunt is a leftover of, if it is one: it has
/// the expected shape, what it is named after is a bundle identifier, and
/// nothing installed owns it.
pub open spec fn orphan_spec(name: Seq<char>, is_dir: bool, ext: Option<Seq<char>>, installed: Seq<Seq<char>>) -> Option<Seq<char>> {
    match stem_spec(name, is_dir, ext, true) {
        None => None,
        Some(st) => {
            let c = canonical_id_spec(st);
            if looks_like_bundle_id_spec(c) && !is_installed_spec(c, installed) {
                Some(c)
            } else {
                None
            }
        },
    }
}

/// Whether an entry of a haunt is the leftover of an uninstalled
/// application, and of which.
pub fn orphan_id(name: &str, is_dir: bool, ext: &Option<String>, installed: &[String]) -> (r: Option<String>)
    ensures
        opt_view(r) == orphan_spec(name@, is_dir, opt_view(*ext), texts(installed@)),
{
    match stem(name, is_dir, ext, true) {
        None => None,
        Some(st) => {
            let c = canonical_id(st.as_str());
            if looks_like_bundle_id(c.as_str()) && !is_installed(c.as_str(), installed) {
                Some(c)
            } else {
                None
            }
        },
    }
}

/// Whether an entry of a haunt belongs to an identifier: it is not the
/// bundle itself, and what it is named after is the identifier or one of
/// its children.
pub open spec fn belongs_spec(name: Seq<char>, path: Seq<char>, ext: Option<Seq<char>>, id: Seq<char>, exclude: Seq<char>) -> bool {
    &&& path != exclude
    &&& match stem_spec(name, false, ext, false) {
        None => false,
        Some(st) => {
            let c = canonical_id_spec(st);
            c == id || child_of(c, id)
        },
    }
}

/// Whether an entry of a haunt belongs to an identifier.
pub fn belongs(name: &str, path: &str, ext: &Option<String>, id: &str, exclude: &str) -> (r: bool)
    ensures
        r == belongs_spec(name@, path@, opt_view(*ext), id@, exclude@),
{
    if chars_eq(chars_of(path).as_slice(), chars_of(exclude).as_slice()) {
        return false;
    }
    match stem(name, false, ext, false) {
        None => false,
        Some(st) => {
            let c = chars_of(canonical_id(st.as_str()).as_str());
            chars_eq(c.as_slice(), chars_of(id).as_slice()) || starts_with(c.as_slice(), dotted(id).as_slice())
        },
    }
}

/// One piece of a leftover.
#[derive(Debug, Clone)]
pub struct Item {
    /// What it is, for the user: `preferences`, `container`…
    pub kind: String,
    pub path: String,
    pub bytes: u64,
}

/// Whether an item is a `launchd` definition, to be unloaded before it
/// disappears.
pub fn is_startup_agent(item: &Item) -> (r: bool)
    ensures
        r == (item.kind@ == "startup agent"@),
{
    chars_eq(chars_of(item.kind.as_str()).as_slice(), chars_of("startup agent").as_slice())
}

/// Everything left behind by one uninstalled application.
#[derive(Debug, Clone)]
pub struct Leftover {
    pub bundle_id: String,
    pub bytes: u64,
    pub items: Vec<Item>,
}

fn copy_item(i: &Item) -> (r: Item)
    ensures
        r == *i,
{
    Item { kind: i.kind.clone(), path: i.path.clone(), bytes: i.bytes }
}

fn copy_items(v: &Vec<Item>) -> (r: Vec<Item>)
    ensures
        r@ == v@,
{
    let mut r: Vec<Item> = Vec::new();
    let mut i: usize = 0;
    while i < v.len()
        invariant
            i <= v@.len(),
            r@ == v@.take(i as int),
        decreases v@.len() - i,
    {
        r.push(copy_item(&v[i]));
        assert(v@.take(i + 1) =~= v@.take(i as int).push(v@[i as int]));
        i += 1;
    }
    assert(v@.take(v@.len() as int) =~= v@);
    r
}

/// Sum of the sizes of the items, held at the largest `u64`.
pub open spec fn items_bytes(items: Seq<Item>) -> u64
    decreases items.len(),
{
    if items.len() == 0 {
        0
    } else {
        sat_add(items_bytes(items.drop_last()), items.last().bytes)
    }
}

fn sum_items(items: &Vec<Item>) -> (r: u64)
    ensures
        r == items_bytes(items@),
{
    let mut sum: u64 = 0;
    let mut i: usize = 0;
    while i < items.len()
        invariant
            i <= items@.len(),
            sum == items_bytes(items@.take(i as int)),
        decreases items@.len() - i,
    {
        assert(items@.take(i + 1).drop_last() =~= items@.take(i as int));
        sum = sum.saturating_add(items[i].bytes);
        i += 1;
    }
    assert(items@.take(items@.len() as int) =~= items@);
    sum
}

/// The items found for an identifier, in the order they were found.
pub open spec fn items_for(found: Seq<(String, Item)>, id: Seq<char>) -> Seq<Item>
    decreases found.len(),
{
    if found.len() == 0 {
        Seq::empty()
    } else {
        let rest = items_for(found.drop_last(), id);
        if found.last().0@ == id {
            rest.push(found.last().1)
        } else {
            rest
        }
    }
}

fn collect_for(found: &Vec<(String, Item)>, id: &String) -> (r: Vec<Item>)
    ensures
        r@ == items_for(found@, id@),
{
    let target = chars_of(id.as_str());
    let mut r: Vec<Item> = Vec::new();
    let mut i: usize = 0;
    while i < found.len()
        invariant
            i <= found@.len(),
            target@ == id@,
            r@ == items_for(found@.take(i as int), id@),
        decreases found@.len() - i,
    {
        assert(found@.take(i + 1).drop_last() =~= found@.take(i as int));
        if chars_eq(chars_of(found[i].0.as_str()).as_slice(), target.as_slice()) {
            r.push(copy_item(&found[i].1));
        }
        i += 1;
    }
    assert(found@.take(found@.len() as int) =~= found@);
    r
}

/// Some item was found for this identifier.
pub open spec fn was_found(found: Seq<(String, Item)>, id: Seq<char>) -> bool {
    exists|k: int| 0 <= k < found.len() && (#[trigger] found[k]).0@ == id
}

/// Some leftover gathers this identifier.
pub open spec fn gathered(r: Seq<Leftover>, id: Seq<char>) -> bool {
    exists|i: int| 0 <= i < r.len() && (#[trigger] r[i]).bundle_id@ == id
}

/// A leftover is what was found for its identifier, and weighs its items.
pub open spec fn leftover_of(l: Leftover, found: Seq<(String, Item)>) -> bool {
    &&& l.items@ == items_for(found, l.bundle_id@)
    &&& l.bytes == items_bytes(l.items@)
    &&& was_found(found, l.bundle_id@)
}

proof fn lemma_less_irreflexive(a: Seq<char>)
    ensures
        !text_less(a, a),
{
    crate::task::journal::lemma_text_less_total(a, a);
}

/// Gathers the items found in the haunts, each with the identifier it is a
/// leftover of, into one leftover per identifier, largest first.
pub fn leftovers(found: &Vec<(String, Item)>) -> (r: Vec<Leftover>)
    ensures
        forall|i: int| 0 <= i < r@.len() ==> leftover_of(#[trigger] r@[i], found@),
        forall|k: int| 0 <= k < found@.len() ==> gathered(r@, (#[trigger] found@[k]).0@),
        forall|i: int, j: int| 0 <= i < j < r@.len() ==> r@[i].bundle_id@ != r@[j].bundle_id@,
        forall|i: int, j: int| 0 <= i < j < r@.len() ==> r@[i].bytes >= r@[j].bytes,
        forall|i: int, j: int| 0 <= i < j < r@.len() && r@[i].bytes == r@[j].bytes
            ==> text_less(r@[i].bundle_id@, r@[j].bundle_id@),
{
    let mut ids: Vec<String> = Vec::new();
    let mut i: usize = 0;
    while i < found.len()
        invariant
            i <= found@.len(),
            ids@.len() == i,
            forall|k: int| 0 <= k < i ==> #[trigger] ids@[k] == found@[k].0,
        decreases found@.len() - i,
    {
        ids.push(copy_text(&found[i].0));
        i += 1;
    }
    let ghost all_ids = ids@;
    let uniq = sorted_unique(ids);
    let mut groups: Vec<Leftover> = Vec::new();
    let mut keys: Vec<u64> = Vec::new();
    let mut u: usize = 0;
    while u < uniq.len()
        invariant
            u <= uniq@.len(),
            groups@.len() == u,
            keys@.len() == u,
            strictly_ascending(texts(uniq@)),
            forall|k: int| 0 <= k < uniq@.len() ==> all_ids.contains(#[trigger] uniq@[k]),
            all_ids.len() == found@.len(),
            forall|k: int| 0 <= k < found@.len() ==> #[trigger] all_ids[k] == found@[k].0,
            forall|k: int| 0 <= k < u ==> (#[trigger] groups@[k]).bundle_id@ == uniq@[k]@ && leftover_of(groups@[k], found@)
                && keys@[k] == groups@[k].bytes,
        decreases uniq@.len() - u,
    {
        let items = collect_for(found, &uniq[u]);
        let bytes = sum_items(&items);
        proof {
            let x = choose|x: int| 0 <= x < all_ids.len() && all_ids[x] == uniq@[u as int];
            assert(found@[x].0@ == uniq@[u as int]@);
        }
        groups.push(Leftover { bundle_id: copy_text(&uniq[u]), bytes, items });
        keys.push(bytes);
        u += 1;
    }
    let order = crate::task::ram::sort_desc(&keys);
    let mut r: Vec<Leftover> = Vec::new();
    let mut t: usize = 0;
    while t < order.len()
        invariant
            t <= order@.len(),
            crate::task::ram::is_permutation(order@, keys@.len() as int),
            crate::task::ram::sorted_desc(keys@, order@),
            crate::task::ram::stable(keys@, order@),
            strictly_ascending(texts(uniq@)),
            keys@.len() == groups@.len(),
            groups@.len() == uniq@.len(),
            forall|k: int| 0 <= k < groups@.len() ==> (#[trigger] groups@[k]).bundle_id@ == uniq@[k]@ && leftover_of(groups@[k], found@)
                && keys@[k] == groups@[k].bytes,
            r@.len() == t,
            forall|x: int| 0 <= x < t ==> (#[trigger] r@[x]).bundle_id@ == groups@[order@[x] as int].bundle_id@
                && r@[x].bytes == groups@[order@[x] as int].bytes && r@[x].items@ == groups@[order@[x] as int].items@,
        decreases order@.len() - t,
    {
        let g = &groups[order[t]];
        r.push(Leftover { bundle_id: copy_text(&g.bundle_id), bytes: g.bytes, items: copy_items(&g.items) });
        t += 1;
    }
    proof {
        assert forall|x: int| 0 <= x < r@.len() implies leftover_of(#[trigger] r@[x], found@) by {
            assert(leftover_of(groups@[order@[x] as int], found@));
        }
        assert forall|a: int, b: int| 0 <= a < b < r@.len() implies r@[a].bytes >= r@[b].bytes by {
            assert(keys@[order@[a] as int] >= keys@[order@[b] as int]);
        }
        assert forall|a: int, b: int| 0 <= a < b < r@.len() && r@[a].bytes == r@[b].bytes
            implies text_less(r@[a].bundle_id@, r@[b].bundle_id@) by {
            let p = order@[a] as int;
            let q = order@[b] as int;
            assert(keys@[p] == keys@[q]);
            assert(p < q);
            assert(text_less(texts(uniq@)[p], texts(uniq@)[q]));
        }
        assert forall|a: int, b: int| 0 <= a < b < r@.len() implies r@[a].bundle_id@ != r@[b].bundle_id@ by {
            let p = order@[a] as int;
            let q = order@[b] as int;
            assert(p != q);
            if p < q {
                assert(text_less(texts(uniq@)[p], texts(uniq@)[q]));
                lemma_less_irreflexive(uniq@[p]@);
            } else {
                assert(text_less(texts(uniq@)[q], texts(uniq@)[p]));
                lemma_less_irreflexive(uniq@[q]@);
            }
        }
        assert forall|k: int| 0 <= k < found@.len() implies gathered(r@, (#[trigger] found@[k]).0@) by {
            assert(all_ids[k] == found@[k].0);
            assert(texts(uniq@).contains(all_ids[k]@));
            let g = choose|g: int| 0 <= g < texts(uniq@).len() && texts(uniq@)[g] == all_ids[k]@;
            assert(crate::task::ram::listed(order@, g));
            let x = choose|x: int| 0 <= x < order@.len() && order@[x] == g;
            assert(r@[x].bundle_id@ == found@[k].0@);
        }
    }
    r
}

/// Everything one bundle identifier left behind, whether or not the
/// application is still installed, from the entries that belong to it (what
/// each is, where, and its size).
pub fn leftovers_of(bundle_id: &str, entries: Vec<(String, String, u64)>) -> (r: Leftover)
    ensures
        r.bundle_id@ == bundle_id@,
        r.items@.len() == entries@.len(),
        forall|i: int| 0 <= i < entries@.len() ==> (#[trigger] r.items@[i]).kind@ == entries@[i].0@
            && r.items@[i].path@ == entries@[i].1@ && r.items@[i].bytes == entries@[i].2,
        r.bytes == items_bytes(r.items@),
{
    let mut items: Vec<Item> = Vec::new();
    let mut i: usize = 0;
    while i < entries.len()
        invariant
            i <= entries@.len(),
            items@.len() == i,
            forall|k: int| 0 <= k < i ==> (#[trigger] items@[k]).kind@ == entries@[k].0@
                && items@[k].path@ == entries@[k].1@ && items@[k].bytes == entries@[k].2,
        decreases entries@.len() - i,
    {
        items.push(Item { kind: copy_text(&entries[i].0), path: copy_text(&entries[i].1), bytes: entries[i].2 });
        i += 1;
    }
    let bytes = sum_items(&items);
    Leftover { bundle_id: owned(bundle_id), bytes, items }
}

/// The entries, among the first `m` of one haunt's listing `l`, that belong
/// to `id` (the bundle `exclude` left out), each with the haunt's kind.
pub open spec fn matching_in(
    h: (Seq<char>, Seq<char>, Option<Seq<char>>),
    l: Seq<Seq<char>>,
    id: Seq<char>,
    exclude: Seq<char>,
    m: int,
) -> Seq<(Seq<char>, Seq<char>)>
    decreases m,
{
    if m <= 0 {
        Seq::empty()
    } else {
        matching_in(h, l, id, exclude, m - 1) + (if belongs_spec(
            crate::task::ram::file_name_spec(l[m - 1]),
            l[m - 1],
            h.2,
            id,
            exclude,
        ) {
            seq![(h.0, l[m - 1])]
        } else {
            Seq::empty()
        })
    }
}

/// The matching entries of the first `n` haunts, haunt after haunt.
pub open spec fn support_spec(
    hs: Seq<(Seq<char>, Seq<char>, Option<Seq<char>>)>,
    ls: Seq<Seq<Seq<char>>>,
    id: Seq<char>,
    exclude: Seq<char>,
    n: int,
) -> Seq<(Seq<char>, Seq<char>)>
    decreases n,
{
    if n <= 0 {
        Seq::empty()
    } else {
        support_spec(hs, ls, id, exclude, n - 1) + matching_in(hs[n - 1], ls[n - 1], id, exclude, ls[n - 1].len() as int)
    }
}

/// The listings, as plain values.
pub open spec fn listing_views(ls: Seq<Vec<String>>) -> Seq<Seq<Seq<char>>> {
    ls.map_values(|l: Vec<String>| texts(l@))
}

/// Every entry of the haunts that belongs to one identifier, unmeasured,
/// with what it is: `listings` holds, for each haunt in the order of
/// `haunts`, the paths found directly in it (none when it cannot be read).
/// An entry belongs when it is not the bundle `exclude` and what it is
/// named after (its extension stripped, for the haunts that have one) is
/// the identifier or one of its children.
pub fn support_entries(id: &str, exclude: &str, listings: &Vec<Vec<String>>, home: &str) -> (r: Vec<(String, String)>)
    requires
        listings@.len() == haunts_spec(home@).len(),
    ensures
        r@.map_values(|e: (String, String)| (e.0@, e.1@)) == support_spec(
            haunts_spec(home@),
            listing_views(listings@),
            id@,
            exclude@,
            listings@.len() as int,
        ),
{
    let hs = haunts(home);
    let ghost hv = haunts_spec(home@);
    let ghost lv = listing_views(listings@);
    let mut r: Vec<(String, String)> = Vec::new();
    assert(hs@.len() == haunt_views(hs@).len());
    let mut h: usize = 0;
    while h < listings.len()
        invariant
            h <= listings@.len(),
            listings@.len() == hv.len(),
            haunt_views(hs@) == hv,
            hs@.len() == hv.len(),
            lv == listing_views(listings@),
            r@.map_values(|e: (String, String)| (e.0@, e.1@)) == support_spec(hv, lv, id@, exclude@, h as int),
        decreases listings@.len() - h,
    {
        let l = &listings[h];
        let ghost base = r@.map_values(|e: (String, String)| (e.0@, e.1@));
        assert(hv[h as int] == (hs@[h as int].0@, hs@[h as int].1@, opt_view(hs@[h as int].2)));
        assert(lv[h as int] == texts(l@));
        let mut m: usize = 0;
        while m < l.len()
            invariant
                m <= l@.len(),
                h < listings@.len(),
                hs@.len() == hv.len(),
                listings@.len() == hv.len(),
                l@ == listings@[h as int].view(),
                hv[h as int] == (hs@[h as int].0@, hs@[h as int].1@, opt_view(hs@[h as int].2)),
                lv[h as int] == texts(l@),
                r@.map_values(|e: (String, String)| (e.0@, e.1@)) == base + matching_in(hv[h as int], lv[h as int], id@, exclude@, m as int),
            decreases l@.len() - m,
        {
            let ghost before = r@.map_values(|e: (String, String)| (e.0@, e.1@));
            let name = crate::task::ram::file_name(l[m].as_str());
            if belongs(name.as_str(), l[m].as_str(), &hs[h].2, id, exclude) {
                r.push((copy_text(&hs[h].0), copy_text(&l[m])));
                assert(r@.map_values(|e: (String, String)| (e.0@, e.1@)) =~= before.push((hs@[h as int].0@, l@[m as int]@)));
            }
            assert(texts(l@)[m as int] == l@[m as int]@);
            assert(matching_in(hv[h as int], lv[h as int], id@, exclude@, m + 1) =~= matching_in(hv[h as int], lv[h as int], id@, exclude@, m as int) + (if belongs_spec(
                crate::task::ram::file_name_spec(lv[h as int][m as int]),
                lv[h as int][m as int],
                hv[h as int].2,
                id@,
                exclude@,
            ) { seq![(hv[h as int].0, lv[h as int][m as int])] } else { Seq::empty() }));
            m += 1;
        }
        assert(lv[h as int].len() == l@.len());
        h += 1;
    }
    r
}

/// Sum of the sizes of a list of leftovers.
pub open spec fn leftovers_bytes(ls: Seq<Leftover>) -> u64
    decreases ls.len(),
{
    if ls.len() == 0 {
        0
    } else {
        sat_add(leftovers_bytes(ls.drop_last()), ls.last().bytes)
    }
}

/// Sum of the sizes of a list of leftovers, held at the largest `u64`.
pub fn total(leftovers: &Vec<Leftover>) -> (r: u64)
    ensures
        r == leftovers_bytes(leftovers@),
{
    let mut sum: u64 = 0;
    let mut i: usize = 0;
    while i < leftovers.len()
        invariant
            i <= leftovers@.len(),
            sum == leftovers_bytes(leftovers@.take(i as int)),
        decreases leftovers@.len() - i,
    {
        assert(leftovers@.take(i + 1).drop_last() =~= leftovers@.take(i as int));
        sum = sum.saturating_add(leftovers[i].bytes);
        i += 1;
    }
    assert(leftovers@.take(leftovers@.len() as int) =~= leftovers@);
    sum
}

/// The kinds of the items, with a run of equal ones said once.
pub open spec fn kinds_spec(items: Seq<Item>) -> Seq<Seq<char>>
    decreases items.len(),
{
    if items.len() == 0 {
        Seq::empty()
    } else {
        let rest = kinds_spec(items.drop_last());
        if items.len() >= 2 && items[items.len() - 2].kind@ == items.last().kind@ {
            rest
        } else {
            rest.push(items.last().kind@)
        }
    }
}

/// The positions, among the first `n` leftovers, of those `orphans --clean`
/// was asked for: every one when no identifier was given, else those whose
/// identifier was.
pub open spec fn chosen_spec(ls: Seq<Leftover>, only: Seq<Seq<char>>, n: int) -> Seq<int>
    decreases n,
{
    if n <= 0 {
        Seq::empty()
    } else {
        chosen_spec(ls, only, n - 1) + (if only.len() == 0 || only.contains(ls[n - 1].bundle_id@) {
            seq![n - 1]
        } else {
            Seq::empty()
        })
    }
}

/// The leftovers asked for, by position, in order.
pub fn chosen(leftovers: &Vec<Leftover>, only: &Vec<String>) -> (r: Vec<usize>)
    ensures
        r@.map_values(|i: usize| i as int) == chosen_spec(leftovers@, texts(only@), leftovers@.len() as int),
        forall|i: int| 0 <= i < r@.len() ==> (#[trigger] r@[i]) < leftovers@.len(),
{
    let mut r: Vec<usize> = Vec::new();
    let mut i: usize = 0;
    while i < leftovers.len()
        invariant
            i <= leftovers@.len(),
            r@.map_values(|i: usize| i as int) == chosen_spec(leftovers@, texts(only@), i as int),
            forall|k: int| 0 <= k < r@.len() ==> (#[trigger] r@[k]) < i,
        decreases leftovers@.len() - i,
    {
        let mut wanted = only.len() == 0;
        let mut j: usize = 0;
        while j < only.len() && !wanted
            invariant
                j <= only@.len(),
                i < leftovers@.len(),
                wanted == (only@.len() == 0 || exists|k: int| 0 <= k < j && texts(only@)[k] == leftovers@[i as int].bundle_id@),
            decreases only@.len() - j,
        {
            assert(texts(only@)[j as int] == only@[j as int]@);
            if chars_eq(chars_of(only[j].as_str()).as_slice(), chars_of(leftovers[i].bundle_id.as_str()).as_slice()) {
                wanted = true;
            }
            j += 1;
        }
        proof {
            if wanted && only@.len() > 0 {
                let k = choose|k: int| 0 <= k < j && texts(only@)[k] == leftovers@[i as int].bundle_id@;
                assert(texts(only@).contains(leftovers@[i as int].bundle_id@));
            }
            if !wanted {
                assert(j == only@.len());
                assert(!texts(only@).contains(leftovers@[i as int].bundle_id@)) by {
                    if texts(only@).contains(leftovers@[i as int].bundle_id@) {
                        let k = choose|k: int| 0 <= k < texts(only@).len() && texts(only@)[k] == leftovers@[i as int].bundle_id@;
                        assert(0 <= k < j);
                    }
                }
            }
        }
        if wanted {
            r.push(i);
        }
        assert(r@.map_values(|i: usize| i as int) =~= chosen_spec(leftovers@, texts(only@), i + 1));
        i += 1;
    }
    r
}

/// A short, readable description of what a leftover is made of.
pub fn kinds(leftover: &Leftover) -> (r: String)
    ensures
        r@ == crate::text::join_text(kinds_spec(leftover.items@), ", "@),
{
    let items = &leftover.items;
    let mut ks: Vec<String> = Vec::new();
    let mut i: usize = 0;
    while i < items.len()
        invariant
            i <= items@.len(),
            items@ == leftover.items@,
            ks@.map_values(|w: String| w@) == kinds_spec(items@.take(i as int)),
        decreases items@.len() - i,
    {
        assert(items@.take(i + 1).drop_last() =~= items@.take(i as int));
        let repeat = i >= 1 && chars_eq(chars_of(items[i - 1].kind.as_str()).as_slice(), chars_of(items[i].kind.as_str()).as_slice());
        if !repeat {
            let ghost before = ks@;
            ks.push(copy_text(&items[i].kind));
            assert(ks@.map_values(|w: String| w@) =~= before.map_values(|w: String| w@).push(items@[i as int].kind@));
        }
        i += 1;
    }
    assert(items@.take(items@.len() as int) =~= items@);
    crate::text::join_strings(&ks, ", ")
}

/// The path of a leftover item, shortened for display.
pub fn short(item: &Item, home: &str) -> (r: String)
    ensures
        r@ == tilde_spec(item.path@, home@),
{
    tilde(item.path.as_str(), home)
}

/// What removing a leftover did.
#[derive(Debug, Clone)]
pub struct Removed {
    pub bundle_id: String,
    pub freed: u64,
    pub trashed: u64,
    pub items: usize,
    pub excluded: usize,
    pub errors: Vec<String>,
    pub moves: Vec<crate::sys::fsx::Move>,
}

/// What removing the first `n` items of a leftover comes to, given for each
/// item what disposing of it gave (ignored for a protected item, which is
/// left alone): items removed, items protected, the errors in order, the
/// bytes that went (held at the largest `u64`), and each move to the trash as
/// (from, to, bytes).
pub open spec fn tally(
    items: Seq<Item>,
    disposed: Seq<Result<String, String>>,
    patterns: Seq<Seq<char>>,
    home: Seq<char>,
    n: int,
) -> (nat, nat, Seq<Seq<char>>, u64, Seq<(Seq<char>, Seq<char>, u64)>)
    decreases n,
{
    if n <= 0 {
        (0, 0, Seq::empty(), 0, Seq::empty())
    } else {
        let a = tally(items, disposed, patterns, home, n - 1);
        let it = items[n - 1];
        if crate::config::blocks_spec(patterns, it.path@, home) {
            (a.0, a.1 + 1, a.2, a.3, a.4)
        } else {
            match disposed[n - 1] {
                Ok(to) => (a.0 + 1, a.1, a.2, sat_add(a.3, it.bytes), a.4.push((it.path@, to@, it.bytes))),
                Err(e) => (a.0, a.1, a.2.push(tilde_spec(it.path@, home) + ": "@ + e@), a.3, a.4),
            }
        }
    }
}

/// The moves of a removal, as plain values.
pub open spec fn move_views(ms: Seq<crate::sys::fsx::Move>) -> Seq<(Seq<char>, Seq<char>, u64)> {
    ms.map_values(|m: crate::sys::fsx::Move| (m.from@, m.to@, m.bytes))
}

/// Removes one application's leftovers the way the policy says, given, for
/// each of its items in order, what disposing of it gave: a protected item is
/// left alone and counted as such, any other one went (freed for good when
/// purging, into the trash otherwise) or failed with its error. Every item is
/// accounted for exactly once.
pub fn remove(leftover: &Leftover, policy: &crate::sys::fsx::Policy, disposed: Vec<Result<String, String>>, home: &str) -> (r: Removed)
    requires
        disposed@.len() == leftover.items@.len(),
    ensures
        r.bundle_id@ == leftover.bundle_id@,
        ({
            let t = tally(leftover.items@, disposed@, policy.excludes@, home@, leftover.items@.len() as int);
            &&& r.items == t.0
            &&& r.excluded == t.1
            &&& texts(r.errors@) == t.2
            &&& policy.disposal == crate::sys::fsx::Disposal::Purge ==> (r.freed == t.3 && r.trashed == 0
                && r.moves@.len() == 0)
            &&& policy.disposal == crate::sys::fsx::Disposal::Trash ==> (r.trashed == t.3 && r.freed == 0
                && move_views(r.moves@) == t.4)
        }),
        r.items + r.excluded + r.errors@.len() == leftover.items@.len(),
{
    let ghost items = leftover.items@;
    let ghost all = disposed@;
    let ghost pats = policy.excludes@;
    let mut acc = Removal::default();
    let mut disposed = disposed;
    let n = leftover.items.len();
    let mut k: usize = 0;
    assert(disposed@ =~= all.skip(0));
    while k < n
        invariant
            k <= n,
            n == items.len(),
            items == leftover.items@,
            all.len() == n,
            pats == policy.excludes@,
            disposed@ == all.skip(k as int),
            ({
                let t = tally(items, all, pats, home@, k as int);
                &&& acc.removed == t.0
                &&& acc.excluded == t.1
                &&& texts(acc.errors@) == t.2
                &&& policy.disposal == crate::sys::fsx::Disposal::Purge ==> (acc.freed == t.3 && acc.trashed == 0
                    && acc.moves@.len() == 0)
                &&& policy.disposal == crate::sys::fsx::Disposal::Trash ==> (acc.trashed == t.3 && acc.freed == 0
                    && move_views(acc.moves@) == t.4)
            }),
            acc.removed + acc.excluded + acc.errors@.len() == k,
        decreases n - k,
    {
        let d = disposed.remove(0);
        assert(d == all[k as int]);
        assert(disposed@ =~= all.skip(k + 1));
        let item = &leftover.items[k];
        let x = crate::sys::fsx::remove(item.path.as_str(), policy, item.bytes, d, home);
        let ghost before = acc;
        match x {
            Ok(one) => {
                absorb(&mut acc, one);
                proof {
                    assert(move_views(acc.moves@) =~= move_views(before.moves@) + move_views(one.moves@));
                }
            },
            Err(e) => {
                let ghost e0 = texts(acc.errors@);
                acc.errors.push(e);
                assert(texts(acc.errors@) =~= e0.push(e@));
            },
        }
        k += 1;
    }
    Removed {
        bundle_id: copy_text(&leftover.bundle_id),
        freed: acc.freed,
        trashed: acc.trashed,
        items: acc.removed,
        excluded: acc.excluded,
        errors: acc.errors,
        moves: acc.moves,
    }
}

/// How the removal of one application's leftovers is reported: the
/// identifier and the space accounted for when nothing failed (simulated
/// under `--dry-run`), else a failure listing every error.
pub fn removed_outcome(r: &Removed, dry_run: bool) -> (o: crate::task::Outcome)
    ensures
        r.errors@.len() == 0 ==> o.action@ == r.bundle_id@ + " — "@
            + crate::format::size_spec(crate::task::docker::sat_add(r.freed, r.trashed) as nat)
            && o.status == (if dry_run { crate::task::Status::Simulated } else { crate::task::Status::Succeeded })
            && o.messages@.len() == 0,
        r.errors@.len() > 0 ==> o.action@ == r.bundle_id@ && o.status == crate::task::Status::Failed
            && texts(o.messages@) == texts(r.errors@),
{
    if r.errors.len() == 0 {
        let mut action = r.bundle_id.clone();
        push_str(&mut action, " — ");
        let sz = crate::format::size(r.freed.saturating_add(r.trashed));
        push_str(&mut action, sz.as_str());
        return crate::task::Outcome::ok(action.as_str(), dry_run);
    }
    let mut o = crate::task::Outcome::new(r.bundle_id.as_str(), crate::task::Status::Failed);
    let mut i: usize = 0;
    while i < r.errors.len()
        invariant
            i <= r.errors@.len(),
            o.action@ == r.bundle_id@,
            o.status == crate::task::Status::Failed,
            texts(o.messages@) == texts(r.errors@).take(i as int),
        decreases r.errors@.len() - i,
    {
        o.push(r.errors[i].as_str());
        assert(texts(r.errors@).take(i + 1) =~= texts(r.errors@).take(i as int).push(r.errors@[i as int]@));
        i += 1;
    }
    assert(texts(r.errors@).take(i as int) =~= texts(r.errors@));
    o
}

/// An entry whose identifier belongs to macOS is never reported as a
/// leftover, whatever is installed.
pub proof fn macos_is_never_a_leftover(name: Seq<char>, is_dir: bool, ext: Option<Seq<char>>, installed: Seq<Seq<char>>)
    requires
        stem_spec(name, is_dir, ext, true) matches Some(st) && is_apple_spec(canonical_id_spec(st)),
    ensures
        orphan_spec(name, is_dir, ext, installed) is None,
{
}

/// An entry whose identifier is an installed one, a helper of one, or the
/// application an installed bundle belongs to is never reported.
pub proof fn installed_family_is_never_a_leftover(
    name: Seq<char>,
    is_dir: bool,
    ext: Option<Seq<char>>,
    installed: Seq<Seq<char>>,
    k: int,
)
    requires
        0 <= k < installed.len(),
        stem_spec(name, is_dir, ext, true) matches Some(st) && related(canonical_id_spec(st), installed[k]),
    ensures
        orphan_spec(name, is_dir, ext, installed) is None,
{
}

/// Only a name that is a bundle identifier is ever attributed: what is
/// reported always looks like one, and is never owned by anything installed.
pub proof fn only_bundle_ids_are_attributed(name: Seq<char>, is_dir: bool, ext: Option<Seq<char>>, installed: Seq<Seq<char>>)
    ensures
        orphan_spec(name, is_dir, ext, installed) matches Some(id) ==> looks_like_bundle_id_spec(id)
            && !is_installed_spec(id, installed),
{
}

} // verus!
