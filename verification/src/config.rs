//! User configuration: exclusions, disposal mode, defaults.
//!
//! The file is a deliberately small subset of TOML — string, boolean and
//! string array assignments at the top level. Anything that cannot be read is
//! reported, never guessed.

use vstd::prelude::*;
use crate::format::{tilde, tilde_spec};
use crate::glob::{glob, glob_chars};
use crate::sys::fsx::Disposal;
use crate::text::{
    chars_eq, chars_of, contains_char, decimal, first_index, has_prefix, is_ws, lemma_first_index,
    lines, lines_of, lowercase, lowercase_chars, parse_u64, parse_u64_spec, push_char, push_chars,
    push_decimal, push_str, slice_to_vec, split, split_chars, starts_with, string_of, trim,
    trim_chars, views,
};

verus! {

// ── matching ───────────────────────────────────────────────────────────────

/// Wildcard match inside one path component, ignoring case the way the disk does.
pub open spec fn seg_match(pattern: Seq<char>, text: Seq<char>) -> bool {
    glob(lowercase(pattern), lowercase(text))
}

/// `seg_match` over character vectors.
pub fn segment_matches(pattern: &[char], text: &[char]) -> (r: bool)
    ensures
        r == seg_match(pattern@, text@),
{
    let p = lowercase_chars(pattern);
    let t = lowercase_chars(text);
    glob_chars(p.as_slice(), t.as_slice())
}

/// Wildcard match inside a single path component.
///
/// Case-insensitive, because the disk this runs on is: APFS is formatted
/// without case sensitivity by default, so `-x '*.dmg'` has to cover
/// `Installer.DMG`. Every use is an exclusion, and erring wide only protects
/// a file too many.
pub fn matches_segment(pattern: &str, text: &str) -> (r: bool)
    ensures
        r == seg_match(pattern@, text@),
{
    let p = chars_of(pattern);
    let t = chars_of(text);
    segment_matches(p.as_slice(), t.as_slice())
}

/// The segment `**`.
pub open spec fn is_double_star(s: Seq<char>) -> bool {
    s == seq!['*', '*']
}

/// Match of pattern segments against path segments: `**` swallows zero or
/// more segments, any other segment matches exactly one.
pub open spec fn parts_match(p: Seq<Seq<char>>, t: Seq<Seq<char>>) -> bool
    decreases p.len(), t.len(),
{
    if p.len() == 0 {
        t.len() == 0
    } else if is_double_star(p[0]) {
        parts_match(p.drop_first(), t) || (t.len() > 0 && parts_match(p, t.drop_first()))
    } else {
        t.len() > 0 && seg_match(p[0], t[0]) && parts_match(p.drop_first(), t.drop_first())
    }
}

proof fn lemma_double_star_unfold(p: Seq<Seq<char>>, t: Seq<Seq<char>>)
    requires
        p.len() > 0,
        is_double_star(p[0]),
    ensures
        parts_match(p, t) == exists|k: int|
            0 <= k <= t.len() && #[trigger] parts_match(p.drop_first(), t.skip(k)),
    decreases t.len(),
{
    assert(t.skip(0) == t);
    if parts_match(p.drop_first(), t) {
        assert(parts_match(p.drop_first(), t.skip(0)));
    }
    if t.len() > 0 {
        lemma_double_star_unfold(p, t.drop_first());
        assert forall|k: int| 1 <= k <= t.len() implies t.drop_first().skip(k - 1) == t.skip(k) by {
        }
        if parts_match(p, t) && !parts_match(p.drop_first(), t) {
            assert(parts_match(p, t.drop_first()));
            let k = choose|k: int|
                0 <= k <= t.drop_first().len() && #[trigger] parts_match(
                    p.drop_first(),
                    t.drop_first().skip(k),
                );
            assert(parts_match(p.drop_first(), t.skip(k + 1)));
        }
        if exists|k: int| 0 <= k <= t.len() && #[trigger] parts_match(p.drop_first(), t.skip(k)) {
            let k = choose|k: int|
                0 <= k <= t.len() && #[trigger] parts_match(p.drop_first(), t.skip(k));
            if k > 0 {
                assert(parts_match(p.drop_first(), t.drop_first().skip(k - 1)));
                assert(parts_match(p, t.drop_first()));
            }
        }
    } else {
        if exists|k: int| 0 <= k <= t.len() && #[trigger] parts_match(p.drop_first(), t.skip(k)) {
            let k = choose|k: int|
                0 <= k <= t.len() && #[trigger] parts_match(p.drop_first(), t.skip(k));
            assert(k == 0);
        }
    }
}

fn double_star(s: &[char]) -> (r: bool)
    ensures
        r == is_double_star(s@),
{
    let r = s.len() == 2 && s[0] == '*' && s[1] == '*';
    proof {
        if r {
            assert(s@ =~= seq!['*', '*']);
        }
    }
    r
}

fn parts_from(p: &[Vec<char>], t: &[Vec<char>], i: usize, j: usize) -> (r: bool)
    requires
        i <= p@.len(),
        j <= t@.len(),
    ensures
        r == parts_match(views(p@).skip(i as int), views(t@).skip(j as int)),
    decreases p@.len() - i,
{
    let ghost ps = views(p@).skip(i as int);
    let ghost ts = views(t@).skip(j as int);
    if i == p.len() {
        return j == t.len();
    }
    assert(ps[0] == p@[i as int]@);
    assert(ps.drop_first() == views(p@).skip(i + 1));
    if double_star(p[i].as_slice()) {
        let n = p.len();
        let mut k = j;
        loop
            invariant
                n == p@.len(),
                i < n,
                j <= k <= t@.len(),
                ps == views(p@).skip(i as int),
                ps.len() > 0,
                is_double_star(ps[0]),
                ps.drop_first() == views(p@).skip(i + 1),
                ts == views(t@).skip(j as int),
                forall|x: int|
                    0 <= x < k - j ==> !#[trigger] parts_match(ps.drop_first(), ts.skip(x)),
            decreases t@.len() - k,
        {
            assert(ts.skip(k - j) == views(t@).skip(k as int));
            if parts_from(p, t, i + 1, k) {
                assert(parts_match(ps.drop_first(), ts.skip(k - j)));
                proof {
                    lemma_double_star_unfold(ps, ts);
                }
                return true;
            }
            if k == t.len() {
                assert forall|x: int| 0 <= x <= ts.len() implies !#[trigger] parts_match(
                    ps.drop_first(),
                    ts.skip(x),
                ) by {
                    if x == k - j {
                    }
                }
                proof {
                    lemma_double_star_unfold(ps, ts);
                }
                return false;
            }
            k += 1;
        }
    } else {
        if j < t.len() {
            assert(ts[0] == t@[j as int]@);
            assert(ts.drop_first() == views(t@).skip(j + 1));
            segment_matches(p[i].as_slice(), t[j].as_slice()) && parts_from(p, t, i + 1, j + 1)
        } else {
            false
        }
    }
}

/// Whether pattern segments match path segments.
pub fn matches_parts(pattern: &[Vec<char>], path: &[Vec<char>]) -> (r: bool)
    ensures
        r == parts_match(views(pattern@), views(path@)),
{
    assert(views(pattern@).skip(0) == views(pattern@));
    assert(views(path@).skip(0) == views(path@));
    parts_from(pattern, path, 0, 0)
}

/// The non-empty pieces, in order.
pub open spec fn nonempty(s: Seq<Seq<char>>) -> Seq<Seq<char>>
    decreases s.len(),
{
    if s.len() == 0 {
        s
    } else if s.last().len() == 0 {
        nonempty(s.drop_last())
    } else {
        nonempty(s.drop_last()).push(s.last())
    }
}

fn nonempty_parts(s: Vec<Vec<char>>) -> (r: Vec<Vec<char>>)
    ensures
        views(r@) == nonempty(views(s@)),
{
    let mut r: Vec<Vec<char>> = Vec::new();
    let mut i: usize = 0;
    while i < s.len()
        invariant
            i <= s@.len(),
            views(r@) == nonempty(views(s@).take(i as int)),
        decreases s@.len() - i,
    {
        let ghost before = views(r@);
        assert(views(s@).take(i + 1).drop_last() == views(s@).take(i as int));
        assert(views(s@).take(i + 1).last() == s@[i as int]@);
        if s[i].len() > 0 {
            r.push(s[i].clone());
            assert(views(r@) =~= before.push(s@[i as int]@));
        }
        i += 1;
    }
    assert(views(s@).take(s@.len() as int) == views(s@));
    r
}

/// Glob match over a whole path.
pub open spec fn path_match(pattern: Seq<char>, path: Seq<char>) -> bool {
    if !pattern.contains('/') {
        exists|i: int|
            0 <= i < split(path, '/').len() && #[trigger] seg_match(pattern, split(path, '/')[i])
    } else {
        parts_match(nonempty(split(pattern, '/')), nonempty(split(path, '/')))
    }
}

/// Glob match over a path: `*` inside a segment, `**` across segments, `?`
/// one character. A pattern with no slash matches any single path component.
pub fn matches_path(pattern: &str, path: &str) -> (r: bool)
    ensures
        r == path_match(pattern@, path@),
{
    let p = chars_of(pattern);
    let t = chars_of(path);
    let parts = split_chars(t.as_slice(), '/');
    if !contains_char(p.as_slice(), '/') {
        let mut i: usize = 0;
        while i < parts.len()
            invariant
                i <= parts@.len(),
                p@ == pattern@,
                t@ == path@,
                !p@.contains('/'),
                views(parts@) == split(t@, '/'),
                forall|x: int| 0 <= x < i ==> !#[trigger] seg_match(p@, split(t@, '/')[x]),
            decreases parts@.len() - i,
        {
            assert(split(t@, '/')[i as int] == parts@[i as int]@);
            if segment_matches(p.as_slice(), parts[i].as_slice()) {
                assert(seg_match(p@, split(t@, '/')[i as int]));
                return true;
            }
            i += 1;
        }
        false
    } else {
        let pattern_parts = nonempty_parts(split_chars(p.as_slice(), '/'));
        let path_parts = nonempty_parts(parts);
        matches_parts(pattern_parts.as_slice(), path_parts.as_slice())
    }
}

/// A pattern with a leading `~/` rewritten against the home directory.
pub open spec fn expand_tilde_spec(pattern: Seq<char>, home: Seq<char>) -> Seq<char> {
    if has_prefix(pattern, seq!['~', '/']) {
        home + seq!['/'] + pattern.skip(2)
    } else {
        pattern
    }
}

/// Rewrites a leading `~/` into the home directory.
pub fn expand_tilde(pattern: &str, home: &str) -> (r: String)
    ensures
        r@ == expand_tilde_spec(pattern@, home@),
{
    let p = chars_of(pattern);
    let prefix = vec!['~', '/'];
    proof {
        assert(prefix@ == seq!['~', '/']);
    }
    if starts_with(p.as_slice(), prefix.as_slice()) {
        let mut out = String::new();
        push_str(&mut out, home);
        push_char(&mut out, '/');
        let rest = slice_to_vec(p.as_slice(), 2, p.len());
        push_chars(&mut out, rest.as_slice());
        out
    } else {
        string_of(p.as_slice())
    }
}


// ── exclusions ─────────────────────────────────────────────────────────────

/// `Path::parent`: the path without its final component, `None` for a root,
/// a prefix or the empty path. It depends on the text alone.
pub uninterp spec fn parent_of(path: Seq<char>) -> Option<Seq<char>>;

/// Calls `Path::parent`; the parent is shorter than the path.
#[verifier::external_body]
pub(crate) fn parent(path: &str) -> (r: Option<String>)
    ensures
        r is Some == parent_of(path@) is Some,
        r matches Some(q) ==> q@ == parent_of(path@).unwrap() && q@.len() < path@.len(),
{
    std::path::Path::new(path).parent().map(|q| q.to_string_lossy().to_string())
}

/// The path itself (`k == 0`), its parent (`k == 1`), and so on up.
pub open spec fn ancestor(path: Seq<char>, k: nat) -> Option<Seq<char>>
    decreases k,
{
    if k == 0 {
        Some(path)
    } else {
        match ancestor(path, (k - 1) as nat) {
            Some(a) => parent_of(a),
            None => None,
        }
    }
}

/// Whether one pattern protects one exact path, written either in full or
/// with the home directory shortened to `~`.
pub open spec fn pattern_covers(pattern: Seq<char>, path: Seq<char>, home: Seq<char>) -> bool {
    path_match(expand_tilde_spec(pattern, home), path) || path_match(pattern, tilde_spec(path, home))
}

/// Whether some pattern protects the path or one of its ancestors.
pub open spec fn blocks_spec(patterns: Seq<Seq<char>>, path: Seq<char>, home: Seq<char>) -> bool {
    exists|i: int, k: nat|
        0 <= i < patterns.len() && (#[trigger] ancestor(path, k) matches Some(a) && pattern_covers(
            #[trigger] patterns[i],
            a,
            home,
        ))
}

/// The character sequences held by a list of strings.
pub open spec fn string_views(v: Seq<String>) -> Seq<Seq<char>> {
    v.map_values(|x: String| x@)
}

/// Paths the tool must leave alone.
#[derive(Debug, Clone, Default)]
pub struct Excludes {
    patterns: Vec<String>,
}

impl View for Excludes {
    type V = Seq<Seq<char>>;

    closed spec fn view(&self) -> Seq<Seq<char>> {
        string_views(self.patterns@)
    }
}

proof fn lemma_ancestor_none_after(path: Seq<char>, k: nat, l: nat)
    requires
        k <= l,
        ancestor(path, k) is None,
    ensures
        ancestor(path, l) is None,
    decreases l - k,
{
    if k < l {
        lemma_ancestor_none_after(path, k, (l - 1) as nat);
    }
}

impl Excludes {
    pub fn new(patterns: Vec<String>) -> (r: Self)
        ensures
            r@ == string_views(patterns@),
    {
        Self { patterns }
    }

    pub fn is_empty(&self) -> (r: bool)
        ensures
            r == (self@.len() == 0),
    {
        self.patterns.len() == 0
    }

    pub fn patterns(&self) -> (r: &[String])
        ensures
            string_views(r@) == self@,
    {
        self.patterns.as_slice()
    }

    /// Adds patterns given on the command line, after the configured ones.
    pub fn extend(&mut self, patterns: &[String])
        ensures
            final(self)@ == old(self)@ + string_views(patterns@),
    {
        let mut i: usize = 0;
        while i < patterns.len()
            invariant
                i <= patterns@.len(),
                self@ == old(self)@ + string_views(patterns@).take(i as int),
            decreases patterns@.len() - i,
        {
            let ghost before = self@;
            self.patterns.push(patterns[i].clone());
            assert(self@ =~= before.push(patterns@[i as int]@));
            assert(string_views(patterns@).take(i + 1) =~= string_views(patterns@).take(
                i as int,
            ).push(patterns@[i as int]@));
            i += 1;
        }
        assert(string_views(patterns@).take(patterns@.len() as int) == string_views(patterns@));
    }

    /// Whether a path is protected — either directly, or by an ancestor.
    pub fn blocks(&self, path: &str, home: &str) -> (r: bool)
        ensures
            r == blocks_spec(self@, path@, home@),
            self@.len() == 0 ==> !r,
    {
        if self.patterns.len() == 0 {
            return false;
        }
        let mut i: usize = 0;
        while i < self.patterns.len()
            invariant
                i <= self@.len(),
                forall|x: int, k: nat|
                    0 <= x < i ==> !(#[trigger] ancestor(path@, k) matches Some(a)
                        && pattern_covers(#[trigger] self@[x], a, home@)),
            decreases self@.len() - i,
        {
            let pattern = self.patterns[i].as_str();
            let expanded = expand_tilde(pattern, home);
            let mut current: Option<String> = Some(string_of(chars_of(path).as_slice()));
            let ghost mut k: nat = 0;
            loop
                invariant
                    i < self@.len(),
                    pattern@ == self@[i as int],
                    expanded@ == expand_tilde_spec(pattern@, home@),
                    current is Some == ancestor(path@, k) is Some,
                    current matches Some(c) ==> ancestor(path@, k) == Some(c@),
                    forall|l: nat|
                        l < k ==> !(#[trigger] ancestor(path@, l) matches Some(a) && pattern_covers(
                            pattern@,
                            a,
                            home@,
                        )),
                ensures
                    pattern@ == self@[i as int],
                    forall|l: nat|
                        !(#[trigger] ancestor(path@, l) matches Some(a) && pattern_covers(
                            pattern@,
                            a,
                            home@,
                        )),
                decreases (match current {
                    Some(c) => c@.len() + 1,
                    None => 0,
                }),
            {
                match current {
                    None => {
                        assert forall|l: nat|
                            !(#[trigger] ancestor(path@, l) matches Some(a) && pattern_covers(
                                pattern@,
                                a,
                                home@,
                            )) by {
                            if l >= k {
                                lemma_ancestor_none_after(path@, k, l);
                            }
                        }
                        break;
                    },
                    Some(c) => {
                        let short = tilde(c.as_str(), home);
                        if matches_path(expanded.as_str(), c.as_str()) || matches_path(
                            pattern,
                            short.as_str(),
                        ) {
                            assert(ancestor(path@, k) matches Some(a) && pattern_covers(
                                self@[i as int],
                                a,
                                home@,
                            ));
                            return true;
                        }
                        let next = parent(c.as_str());
                        proof {
                            assert(ancestor(path@, k + 1) == parent_of(c@));
                            k = k + 1;
                        }
                        current = next;
                    },
                }
            }
            i += 1;
        }
        false
    }
}

/// Exclusions given on the command line add to the configured ones: whatever
/// was protected before stays protected.
pub proof fn extend_only_protects_more(
    before: Seq<Seq<char>>,
    added: Seq<Seq<char>>,
    path: Seq<char>,
    home: Seq<char>,
)
    requires
        blocks_spec(before, path, home),
    ensures
        blocks_spec(before + added, path, home),
{
    let (i, k) = choose|i: int, k: nat|
        0 <= i < before.len() && (#[trigger] ancestor(path, k) matches Some(a) && pattern_covers(
            #[trigger] before[i],
            a,
            home,
        ));
    assert((before + added)[i] == before[i]);
}

/// No pattern protects nothing.
pub proof fn no_patterns_protect_nothing(path: Seq<char>, home: Seq<char>)
    ensures
        !blocks_spec(Seq::empty(), path, home),
{
}


// ── the configuration file ─────────────────────────────────────────────────

/// Everything the user can set once and forget.
#[derive(Debug, Clone)]
pub struct Config {
    /// Paths that must never be touched.
    pub exclude: Excludes,
    /// What a deletion does by default.
    pub disposal: Disposal,
    /// Targets used by `clean` and `scan` when none is given.
    pub default_targets: Vec<String>,
    /// Ask a second time before anything irreversible.
    pub confirm_twice: bool,
    /// Leave alone anything touched more recently than this many days.
    pub min_age_days: u64,
    /// Where the settings were read from.
    pub source: Option<String>,
    /// Lines that could not be understood.
    pub problems: Vec<String>,
}

/// What a configuration says, as plain values.
pub struct ConfigView {
    pub exclude: Seq<Seq<char>>,
    pub disposal: Disposal,
    pub default_targets: Seq<Seq<char>>,
    pub confirm_twice: bool,
    pub min_age_days: u64,
    pub problems: Seq<Seq<char>>,
}

/// The defaults: trash, ask twice, no age limit, nothing excluded.
pub open spec fn default_config() -> ConfigView {
    ConfigView {
        exclude: Seq::empty(),
        disposal: Disposal::Trash,
        default_targets: Seq::empty(),
        confirm_twice: true,
        min_age_days: 0,
        problems: Seq::empty(),
    }
}

impl Config {
    pub open spec fn view_of(&self) -> ConfigView {
        ConfigView {
            exclude: self.exclude@,
            disposal: self.disposal,
            default_targets: string_views(self.default_targets@),
            confirm_twice: self.confirm_twice,
            min_age_days: self.min_age_days,
            problems: string_views(self.problems@),
        }
    }
}

impl Default for Config {
    fn default() -> (r: Self)
        ensures
            r.view_of() == default_config(),
            r.source is None,
    {
        let r = Config {
            exclude: Excludes::new(Vec::new()),
            disposal: Disposal::Trash,
            default_targets: Vec::new(),
            confirm_twice: true,
            min_age_days: 0,
            source: None,
            problems: Vec::new(),
        };
        assert(r.view_of().exclude =~= Seq::empty());
        assert(r.view_of().default_targets =~= Seq::empty());
        assert(r.view_of().problems =~= Seq::empty());
        r
    }
}

/// A parsed right-hand side.
pub enum SettingValue {
    Text(Seq<char>),
    Bool(bool),
    List(Seq<Seq<char>>),
    /// A line with no `=`: nothing is assigned, and the line is reported.
    Missing,
}

/// One assignment: key, value and the (one-based) line it starts on.
pub struct Setting {
    pub key: Seq<char>,
    pub value: SettingValue,
    pub line: nat,
}

/// The part of a line before any `#`, trimmed.
pub open spec fn strip_comment_spec(line: Seq<char>) -> Seq<char> {
    trim(split(line, '#')[0])
}

/// Quote characters that `unquote` peels off.
pub open spec fn is_quote(c: char) -> bool {
    c == '"' || c == '\''
}

pub open spec fn trim_start_quotes(s: Seq<char>) -> Seq<char>
    decreases s.len(),
{
    if s.len() > 0 && is_quote(s[0]) {
        trim_start_quotes(s.drop_first())
    } else {
        s
    }
}

pub open spec fn trim_end_quotes(s: Seq<char>) -> Seq<char>
    decreases s.len(),
{
    if s.len() > 0 && is_quote(s.last()) {
        trim_end_quotes(s.drop_last())
    } else {
        s
    }
}

/// Trimmed, then stripped of surrounding quotes of either kind.
pub open spec fn unquote_spec(raw: Seq<char>) -> Seq<char> {
    trim_end_quotes(trim_start_quotes(trim(raw)))
}

pub open spec fn trim_start_brackets(s: Seq<char>) -> Seq<char>
    decreases s.len(),
{
    if s.len() > 0 && s[0] == '[' {
        trim_start_brackets(s.drop_first())
    } else {
        s
    }
}

/// Keeps appending lines until the array closes or the text ends; returns
/// the accumulated text and the index of the next unread line.
pub open spec fn gather(ls: Seq<Seq<char>>, idx: int, rest: Seq<char>) -> (Seq<char>, int)
    decreases ls.len() - idx,
{
    if rest.contains(']') || idx >= ls.len() || idx < 0 {
        (rest, idx)
    } else {
        gather(ls, idx + 1, rest + seq![' '] + strip_comment_spec(ls[idx]))
    }
}

/// The items of an array text `[a, "b", ...]`, unquoted, empty ones dropped.
pub open spec fn array_items(rest: Seq<char>) -> Seq<Seq<char>> {
    let inner = split(trim_start_brackets(rest), ']')[0];
    nonempty(split(inner, ',').map_values(|item: Seq<char>| unquote_spec(trim(item))))
}

/// The value of a single-line right-hand side.
pub open spec fn scalar_value(rest: Seq<char>) -> SettingValue {
    if rest == seq!['t', 'r', 'u', 'e'] {
        SettingValue::Bool(true)
    } else if rest == seq!['f', 'a', 'l', 's', 'e'] {
        SettingValue::Bool(false)
    } else {
        SettingValue::Text(unquote_spec(rest))
    }
}

/// The assignments found from line `idx` on.
pub open spec fn entries_from(ls: Seq<Seq<char>>, idx: int) -> Seq<Setting>
    decreases ls.len() - idx, 1int,
{
    if idx < 0 || idx >= ls.len() {
        Seq::empty()
    } else {
        let line = strip_comment_spec(ls[idx]);
        let e = first_index(line, '=');
        if line.len() == 0 {
            entries_from(ls, idx + 1)
        } else if e < 0 {
            seq![Setting { key: line, value: SettingValue::Missing, line: (idx + 1) as nat }]
                + entries_from(ls, idx + 1)
        } else {
            let key = trim(line.take(e));
            let rest = trim(line.skip(e + 1));
            if rest.len() > 0 && rest[0] == '[' {
                let (text, next) = gather(ls, idx + 1, rest);
                proof {
                    lemma_gather_advances(ls, idx + 1, rest);
                }
                seq![Setting { key, value: SettingValue::List(array_items(text)), line: (idx + 1) as nat }]
                    + entries_from(ls, next)
            } else {
                seq![Setting { key, value: scalar_value(rest), line: (idx + 1) as nat }]
                    + entries_from(ls, idx + 1)
            }
        }
    }
}

pub proof fn lemma_gather_advances(ls: Seq<Seq<char>>, idx: int, rest: Seq<char>)
    ensures
        gather(ls, idx, rest).1 >= idx,
        idx >= 0 ==> gather(ls, idx, rest).1 <= ls.len() || gather(ls, idx, rest).1 == idx,
    decreases ls.len() - idx,
{
    if !(rest.contains(']') || idx >= ls.len() || idx < 0) {
        lemma_gather_advances(ls, idx + 1, rest + seq![' '] + strip_comment_spec(ls[idx]));
    }
}

/// Every assignment of a configuration text.
pub open spec fn entries_spec(text: Seq<char>) -> Seq<Setting> {
    entries_from(lines(text), 0)
}

/// `line N: ` in front of a problem.
pub open spec fn line_prefix(line: nat) -> Seq<char> {
    "line "@ + decimal(line) + ": "@
}

/// One assignment applied to a configuration.
pub open spec fn apply_setting(c: ConfigView, s: Setting) -> ConfigView {
    let k = s.key;
    if s.value is Missing {
        ConfigView {
            problems: c.problems.push(line_prefix(s.line) + "expected `key = value`, found `"@ + k + "`"@),
            ..c
        }
    } else if k == "exclude"@ && s.value is List {
        ConfigView { exclude: s.value->List_0, ..c }
    } else if k == "default_targets"@ && s.value is List {
        ConfigView { default_targets: s.value->List_0, ..c }
    } else if k == "disposal"@ && s.value is Text {
        let word = s.value->Text_0;
        if word == "trash"@ {
            ConfigView { disposal: Disposal::Trash, ..c }
        } else if word == "purge"@ {
            ConfigView { disposal: Disposal::Purge, ..c }
        } else {
            ConfigView {
                problems: c.problems.push(
                    line_prefix(s.line) + "disposal must be trash or purge, not `"@ + word + "`"@,
                ),
                ..c
            }
        }
    } else if k == "confirm_twice"@ && s.value is Bool {
        ConfigView { confirm_twice: s.value->Bool_0, ..c }
    } else if k == "min_age_days"@ && s.value is Text {
        let days = s.value->Text_0;
        match parse_u64_spec(days) {
            Some(n) => ConfigView { min_age_days: n, ..c },
            None => ConfigView {
                problems: c.problems.push(
                    line_prefix(s.line) + "min_age_days must be a number, not `"@ + days + "`"@,
                ),
                ..c
            },
        }
    } else {
        ConfigView {
            problems: c.problems.push(
                line_prefix(s.line) + "unknown or mistyped setting `"@ + k + "`"@,
            ),
            ..c
        }
    }
}

/// The configuration after the first `n` assignments.
pub open spec fn apply_all(c: ConfigView, settings: Seq<Setting>) -> ConfigView
    decreases settings.len(),
{
    if settings.len() == 0 {
        c
    } else {
        apply_setting(apply_all(c, settings.drop_last()), settings.last())
    }
}

/// What a configuration text sets, starting from the defaults.
pub open spec fn parse_spec(text: Seq<char>) -> ConfigView {
    apply_all(default_config(), entries_spec(text))
}


fn strip_comment(line: &[char]) -> (r: Vec<char>)
    ensures
        r@ == strip_comment_spec(line@),
{
    let pieces = split_chars(line, '#');
    proof {
        crate::text::lemma_split_nonempty(line@, '#');
    }
    assert(pieces@[0]@ == split(line@, '#')[0]);
    trim_chars(pieces[0].as_slice())
}

fn trim_quotes(s: &[char]) -> (r: Vec<char>)
    ensures
        r@ == trim_end_quotes(trim_start_quotes(s@)),
{
    let mut i: usize = 0;
    assert(s@.skip(0) == s@);
    while i < s.len() && (s[i] == '"' || s[i] == '\'')
        invariant
            i <= s@.len(),
            trim_start_quotes(s@) == trim_start_quotes(s@.skip(i as int)),
        decreases s@.len() - i,
    {
        assert(s@.skip(i as int).drop_first() == s@.skip(i + 1));
        i += 1;
    }
    let rest = slice_to_vec(s, i, s.len());
    assert(rest@ == trim_start_quotes(s@));
    let mut j: usize = rest.len();
    assert(rest@.take(j as int) == rest@);
    while j > 0 && (rest[j - 1] == '"' || rest[j - 1] == '\'')
        invariant
            j <= rest@.len(),
            trim_end_quotes(rest@) == trim_end_quotes(rest@.take(j as int)),
        decreases j,
    {
        assert(rest@.take(j as int).drop_last() == rest@.take(j - 1));
        j -= 1;
    }
    slice_to_vec(rest.as_slice(), 0, j)
}

fn unquote(raw: &[char]) -> (r: Vec<char>)
    ensures
        r@ == unquote_spec(raw@),
{
    let t = trim_chars(raw);
    trim_quotes(t.as_slice())
}

fn trim_brackets(s: &[char]) -> (r: Vec<char>)
    ensures
        r@ == trim_start_brackets(s@),
{
    let mut i: usize = 0;
    assert(s@.skip(0) == s@);
    while i < s.len() && s[i] == '['
        invariant
            i <= s@.len(),
            trim_start_brackets(s@) == trim_start_brackets(s@.skip(i as int)),
        decreases s@.len() - i,
    {
        assert(s@.skip(i as int).drop_first() == s@.skip(i + 1));
        i += 1;
    }
    slice_to_vec(s, i, s.len())
}

fn array_items_of(rest: &[char]) -> (r: Vec<Vec<char>>)
    ensures
        views(r@) == array_items(rest@),
{
    let trimmed = trim_brackets(rest);
    let closing = split_chars(trimmed.as_slice(), ']');
    proof {
        crate::text::lemma_split_nonempty(trimmed@, ']');
    }
    let inner = &closing[0];
    let pieces = split_chars(inner.as_slice(), ',');
    let ghost mapped = split(inner@, ',').map_values(|item: Seq<char>| unquote_spec(trim(item)));
    let mut cleaned: Vec<Vec<char>> = Vec::new();
    let mut i: usize = 0;
    while i < pieces.len()
        invariant
            i <= pieces@.len(),
            views(pieces@) == split(inner@, ','),
            mapped == split(inner@, ',').map_values(|item: Seq<char>| unquote_spec(trim(item))),
            views(cleaned@) == mapped.take(i as int),
        decreases pieces@.len() - i,
    {
        let t = trim_chars(pieces[i].as_slice());
        let u = unquote(t.as_slice());
        let ghost before = views(cleaned@);
        cleaned.push(u);
        assert(views(cleaned@) =~= before.push(u@));
        assert(mapped.take(i + 1) =~= mapped.take(i as int).push(mapped[i as int]));
        i += 1;
    }
    assert(mapped.take(pieces@.len() as int) == mapped);
    nonempty_parts(cleaned)
}

/// A parsed right-hand side.
enum Value {
    Text(Vec<char>),
    Bool(bool),
    List(Vec<Vec<char>>),
    Missing,
}

impl Value {
    spec fn view_of(&self) -> SettingValue {
        match self {
            Value::Text(t) => SettingValue::Text(t@),
            Value::Bool(b) => SettingValue::Bool(*b),
            Value::List(items) => SettingValue::List(views(items@)),
            Value::Missing => SettingValue::Missing,
        }
    }
}

struct Entry {
    key: Vec<char>,
    value: Value,
    line: usize,
}

spec fn entry_views(es: Seq<Entry>) -> Seq<Setting> {
    es.map_values(|e: Entry| Setting { key: e.key@, value: e.value.view_of(), line: e.line as nat })
}

fn scalar_of(rest: &[char]) -> (v: Value)
    ensures
        v.view_of() == scalar_value(rest@),
{
    let t = vec!['t', 'r', 'u', 'e'];
    let f = vec!['f', 'a', 'l', 's', 'e'];
    assert(t@ == seq!['t', 'r', 'u', 'e']);
    assert(f@ == seq!['f', 'a', 'l', 's', 'e']);
    if chars_eq(rest, t.as_slice()) {
        Value::Bool(true)
    } else if chars_eq(rest, f.as_slice()) {
        Value::Bool(false)
    } else {
        Value::Text(unquote(rest))
    }
}

/// Splits the text into `(key, value, line number)` triples.
///
/// Arrays may span several lines; everything else is a single line.
fn entries(text: &str) -> (found: Vec<Entry>)
    ensures
        entry_views(found@) == entries_spec(text@),
{
    let chars = chars_of(text);
    let ls = lines_of(chars.as_slice());
    let ghost lsv = views(ls@);
    let mut found: Vec<Entry> = Vec::new();
    let mut idx: usize = 0;
    while idx < ls.len()
        invariant
            idx <= ls@.len(),
            lsv == views(ls@),
            lsv == lines(text@),
            entry_views(found@) + entries_from(lsv, idx as int) == entries_from(lsv, 0),
        decreases ls@.len() - idx,
    {
        let line = strip_comment(ls[idx].as_slice());
        let ghost e = first_index(line@, '=');
        proof {
            lemma_first_index(line@, '=');
        }
        let mut eq: usize = 0;
        while eq < line.len() && line[eq] != '='
            invariant
                eq <= line@.len(),
                forall|k: int| 0 <= k < eq ==> line@[k] != '=',
            decreases line@.len() - eq,
        {
            eq += 1;
        }
        proof {
            crate::text::lemma_first_index_at(line@, '=', eq as int);
        }
        if line.len() == 0 {
            idx += 1;
        } else if eq == line.len() {
            let entry = Entry { key: line, value: Value::Missing, line: idx + 1 };
            let ghost before = entry_views(found@);
            found.push(entry);
            assert(entry_views(found@) =~= before.push(entry_views(found@).last()));
            idx += 1;
        } else {
            let key = trim_chars(slice_to_vec(line.as_slice(), 0, eq).as_slice());
            let rest = trim_chars(slice_to_vec(line.as_slice(), eq + 1, line.len()).as_slice());
            if rest.len() > 0 && rest[0] == '[' {
                let mut text_so_far = rest;
                let mut next = idx + 1;
                while !contains_char(text_so_far.as_slice(), ']') && next < ls.len()
                    invariant
                        idx < next <= ls@.len(),
                        lsv == views(ls@),
                        gather(lsv, next as int, text_so_far@) == gather(lsv, idx + 1, trim(line@.skip(e + 1))),
                    decreases ls@.len() - next,
                {
                    let more = strip_comment(ls[next].as_slice());
                    let ghost before = text_so_far@;
                    push_space(&mut text_so_far);
                    extend_chars(&mut text_so_far, more.as_slice());
                    assert(text_so_far@ == before + seq![' '] + strip_comment_spec(lsv[next as int]));
                    next += 1;
                }
                let items = array_items_of(text_so_far.as_slice());
                let entry = Entry { key, value: Value::List(items), line: idx + 1 };
                let ghost before = entry_views(found@);
                found.push(entry);
                assert(entry_views(found@) =~= before.push(entry_views(found@).last()));
                idx = next;
            } else {
                let value = scalar_of(rest.as_slice());
                let entry = Entry { key, value, line: idx + 1 };
                let ghost before = entry_views(found@);
                found.push(entry);
                assert(entry_views(found@) =~= before.push(entry_views(found@).last()));
                idx += 1;
            }
        }
    }
    found
}

fn push_space(v: &mut Vec<char>)
    ensures
        final(v)@ == old(v)@ + seq![' '],
{
    v.push(' ');
}

fn extend_chars(v: &mut Vec<char>, more: &[char])
    ensures
        final(v)@ == old(v)@ + more@,
{
    let mut i: usize = 0;
    while i < more.len()
        invariant
            i <= more@.len(),
            v@ == old(v)@ + more@.take(i as int),
        decreases more@.len() - i,
    {
        v.push(more[i]);
        assert(more@.take(i + 1) == more@.take(i as int).push(more@[i as int]));
        i += 1;
    }
    assert(more@.take(more@.len() as int) == more@);
}


fn word_is(s: &[char], word: &str) -> (r: bool)
    ensures
        r == (s@ == word@),
{
    let w = chars_of(word);
    chars_eq(s, w.as_slice())
}

fn problem(line: usize, head: &str, what: &[char]) -> (r: String)
    ensures
        r@ == line_prefix(line as nat) + head@ + what@ + "`"@,
{
    let mut m = String::new();
    push_str(&mut m, "line ");
    push_decimal(&mut m, line as u64);
    push_str(&mut m, ": ");
    push_str(&mut m, head);
    push_chars(&mut m, what);
    push_str(&mut m, "`");
    m
}

fn strings_of(items: &Vec<Vec<char>>) -> (r: Vec<String>)
    ensures
        string_views(r@) == views(items@),
{
    let mut r: Vec<String> = Vec::new();
    let mut i: usize = 0;
    while i < items.len()
        invariant
            i <= items@.len(),
            string_views(r@) == views(items@).take(i as int),
        decreases items@.len() - i,
    {
        let ghost before = string_views(r@);
        r.push(string_of(items[i].as_slice()));
        assert(string_views(r@) =~= before.push(items@[i as int]@));
        assert(views(items@).take(i + 1) =~= views(items@).take(i as int).push(items@[i as int]@));
        i += 1;
    }
    assert(views(items@).take(items@.len() as int) == views(items@));
    r
}

/// Where the configuration file is: `$DETOX_MAC_CONFIG` when it is set, else
/// `detox-mac/config.toml` under a non-empty `$XDG_CONFIG_HOME`, else under
/// `~/.config`.
pub open spec fn config_path_spec(explicit: Option<Seq<char>>, xdg_config_home: Option<Seq<char>>, home: Seq<char>) -> Seq<char> {
    match explicit {
        Some(e) => e,
        None => match xdg_config_home {
            Some(base) if base.len() > 0 => crate::sys::fsx::join_spec(base, "detox-mac/config.toml"@),
            _ => crate::sys::fsx::join_spec(home, ".config/detox-mac/config.toml"@),
        },
    }
}

impl Config {
    /// Path of the configuration file, whether or not it exists, from the
    /// two variables that can place it.
    pub fn path(explicit: Option<&str>, xdg_config_home: Option<&str>, home: &str) -> (r: String)
        ensures
            r@ == config_path_spec(
                match explicit { Some(e) => Some(e@), None => None },
                match xdg_config_home { Some(x) => Some(x@), None => None },
                home@,
            ),
    {
        match explicit {
            Some(e) => {
                let mut r = String::new();
                crate::text::push_str(&mut r, e);
                r
            },
            None => match xdg_config_home {
                Some(base) => {
                    if chars_of(base).len() > 0 {
                        crate::sys::fsx::join(base, "detox-mac/config.toml")
                    } else {
                        crate::sys::fsx::home_join(home, ".config/detox-mac/config.toml")
                    }
                },
                None => crate::sys::fsx::home_join(home, ".config/detox-mac/config.toml"),
            },
        }
    }

    /// How old, in days, an entry must be before a cleanup touches it: what
    /// `--older-than` gave, else the configured `min_age_days` when it is not
    /// zero, else no limit.
    pub fn age_limit(&self, given: Option<u64>) -> (r: Option<u64>)
        ensures
            r == (match given {
                Some(d) => Some(d),
                None => if self.min_age_days > 0 { Some(self.min_age_days) } else { None },
            }),
    {
        match given {
            Some(d) => Some(d),
            None => if self.min_age_days > 0 { Some(self.min_age_days) } else { None },
        }
    }

    /// Reads a configuration text, reporting every line it cannot make sense of.
    pub fn parse(text: &str) -> (config: Self)
        ensures
            config.view_of() == parse_spec(text@),
            config.source is None,
    {
        let mut config = Config::default();
        let found = entries(text);
        let mut i: usize = 0;
        while i < found.len()
            invariant
                i <= found@.len(),
                entry_views(found@) == entries_spec(text@),
                config.source is None,
                config.view_of() == apply_all(default_config(), entry_views(found@).take(i as int)),
            decreases found@.len() - i,
        {
            let entry = &found[i];
            let ghost s = entry_views(found@)[i as int];
            assert(entry_views(found@).take(i + 1).drop_last() == entry_views(found@).take(i as int));
            let key = entry.key.as_slice();
            let line = entry.line;
            match &entry.value {
                Value::Missing => {
                    let ghost before = string_views(config.problems@);
                    config.problems.push(problem(line, "expected `key = value`, found `", key));
                    assert(string_views(config.problems@) =~= before.push(
                        string_views(config.problems@).last(),
                    ));
                },
                Value::List(items) if word_is(key, "exclude") => {
                    config.exclude = Excludes::new(strings_of(items));
                },
                Value::List(items) if word_is(key, "default_targets") => {
                    config.default_targets = strings_of(items);
                },
                Value::Text(word) if word_is(key, "disposal") => {
                    if word_is(word.as_slice(), "trash") {
                        config.disposal = Disposal::Trash;
                    } else if word_is(word.as_slice(), "purge") {
                        config.disposal = Disposal::Purge;
                    } else {
                        let ghost before = string_views(config.problems@);
                        config.problems.push(
                            problem(line, "disposal must be trash or purge, not `", word.as_slice()),
                        );
                        assert(string_views(config.problems@) =~= before.push(
                            string_views(config.problems@).last(),
                        ));
                    }
                },
                Value::Bool(flag) if word_is(key, "confirm_twice") => {
                    config.confirm_twice = *flag;
                },
                Value::Text(days) if word_is(key, "min_age_days") => {
                    match parse_u64(days.as_slice()) {
                        Some(n) => {
                            config.min_age_days = n;
                        },
                        None => {
                            let ghost before = string_views(config.problems@);
                            config.problems.push(
                                problem(line, "min_age_days must be a number, not `", days.as_slice()),
                            );
                            assert(string_views(config.problems@) =~= before.push(
                                string_views(config.problems@).last(),
                            ));
                        },
                    }
                },
                _ => {
                    let ghost before = string_views(config.problems@);
                    config.problems.push(problem(line, "unknown or mistyped setting `", key));
                    assert(string_views(config.problems@) =~= before.push(
                        string_views(config.problems@).last(),
                    ));
                },
            }
            i += 1;
        }
        assert(entry_views(found@).take(found@.len() as int) == entry_views(found@));
        config
    }
}

} // verus!
