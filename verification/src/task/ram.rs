//! Memory inspection, the way Activity Monitor does it.
//!
//! Processes are grouped by parent application: the many helpers of an
//! Electron app or a browser count as a single line.

use vstd::prelude::*;
use crate::format::{number_parts, number_parts_of, scale, scaled_value, trim_end_char, trim_end_char_of, GIB, MIB, TIB};
use crate::sys::machine::{parse_u32_spec, parse_u8_spec, sat_mul, Memory};
use crate::task::docker::{unit_start, unit_start_of};
use crate::text::{
    alphanumeric, char_lowercase, is_alphanumeric, lower_char, lowercase, to_lowercase,
    chars_eq, chars_of, contains_chars, contains_sub, ends_with, find_sub, find_sub_index,
    first_word_end, first_word_len, has_prefix, has_suffix, is_whitespace, is_ws, join_first,
    join_with, lines, lines_of, parse_u64, parse_u64_spec, push_chars, slice_to_vec, split,
    split_chars, starts_with, string_of, trim, trim_chars, trim_start, trim_start_index, views,
    words, words_of, ws_index,
};

verus! {

/// A live process.
#[derive(Debug, Clone)]
pub struct Process {
    pub pid: u32,
    pub ppid: u32,
    pub user: String,
    /// Executable name.
    pub name: String,
    pub path: String,
    /// Memory footprint (`top`), falling back to resident size (`ps`).
    pub bytes: u64,
    /// Average CPU share since the process started, as `ps` prints it.
    pub cpu: String,
    /// Time since launch, as `ps` reports it (`3-04:12:33`).
    pub elapsed: String,
    /// Full command line, filled in by `inspect` only.
    pub args: Option<String>,
}

/// A set of processes belonging to the same application.
#[derive(Debug, Clone)]
pub struct Group {
    pub name: String,
    /// Originating `.app` bundle, when there is one.
    pub bundle: Option<String>,
    pub bytes: u64,
    /// A macOS component or an Apple application.
    pub system: bool,
    /// Started automatically by a `launchd` agent.
    pub autostart: bool,
    /// Labels of the `launchd` agents that start this application.
    pub agents: Vec<String>,
    pub processes: Vec<Process>,
}

// ── reading paths ───────────────────────────────────────────────────────────

/// Index of the first piece that names an application bundle, or -1.
pub open spec fn first_app(ps: Seq<Seq<char>>) -> int
    decreases ps.len(),
{
    if ps.len() == 0 {
        -1
    } else if has_suffix(ps[0], ".app"@) {
        0
    } else {
        let r = first_app(ps.drop_first());
        if r < 0 {
            -1
        } else {
            r + 1
        }
    }
}

proof fn lemma_first_app_at(ps: Seq<Seq<char>>, k: int)
    requires
        0 <= k <= ps.len(),
        forall|j: int| 0 <= j < k ==> !has_suffix(#[trigger] ps[j], ".app"@),
        k < ps.len() ==> has_suffix(ps[k], ".app"@),
    ensures
        first_app(ps) == (if k < ps.len() { k } else { -1 }),
    decreases ps.len(),
{
    if ps.len() > 0 && k > 0 {
        assert forall|j: int| 0 <= j < k - 1 implies !has_suffix(#[trigger] ps.drop_first()[j], ".app"@) by {
            assert(ps.drop_first()[j] == ps[j + 1]);
        }
        lemma_first_app_at(ps.drop_first(), k - 1);
    }
}

/// The outermost `.app` bundle of a path: its name and its path.
pub open spec fn bundle_of_spec(path: Seq<char>) -> Option<(Seq<char>, Seq<char>)> {
    let ps = split(path, '/');
    let k = first_app(ps);
    if k < 0 {
        None
    } else {
        Some((ps[k].take(ps[k].len() - 4), join_with(ps.take(k + 1), '/')))
    }
}

/// Outermost `.app` bundle of the path, and its name.
pub fn bundle_of(path: &str) -> (r: Option<(String, String)>)
    ensures
        match bundle_of_spec(path@) {
            None => r is None,
            Some((name, bundle)) => r matches Some((n, b)) && n@ == name && b@ == bundle,
        },
{
    proof {
        reveal_strlit(".app");
    }
    let parts = split_chars(chars_of(path).as_slice(), '/');
    let app = chars_of(".app");
    let mut k: usize = 0;
    while k < parts.len()
        invariant
            k <= parts@.len(),
            views(parts@) == split(path@, '/'),
            app@ == ".app"@,
            forall|j: int| 0 <= j < k ==> !has_suffix(#[trigger] views(parts@)[j], ".app"@),
        decreases parts@.len() - k,
    {
        assert(views(parts@)[k as int] == parts@[k as int]@);
        if ends_with(parts[k].as_slice(), app.as_slice()) {
            proof {
                lemma_first_app_at(views(parts@), k as int);
                reveal_strlit(".app");
            }
            let piece = &parts[k];
            let name = slice_to_vec(piece.as_slice(), 0, piece.len() - 4);
            let bundle = join_first(&parts, k + 1, '/');
            return Some((string_of(name.as_slice()), string_of(bundle.as_slice())));
        }
        k += 1;
    }
    proof {
        lemma_first_app_at(views(parts@), k as int);
    }
    None
}

/// Locations belonging to macOS or to Apple.
pub open spec fn system_prefixes() -> Seq<Seq<char>> {
    seq![
        "/System/"@, "/usr/"@, "/bin/"@, "/sbin/"@, "/Library/Apple/"@, "/Library/CoreMediaIO/"@,
        "/Library/PrivilegedHelperTools/com.apple."@,
    ]
}

/// A process is "system" when it comes from macOS itself: no absolute path,
/// a cryptex, or one of the system locations.
pub open spec fn is_system_spec(path: Seq<char>) -> bool {
    ||| !has_prefix(path, "/"@)
    ||| contains_sub(path, "/Cryptexes/"@)
    ||| exists|i: int| 0 <= i < system_prefixes().len() && has_prefix(path, #[trigger] system_prefixes()[i])
}

/// Whether a process comes from macOS itself.
pub fn is_system(path: &str) -> (r: bool)
    ensures
        r == is_system_spec(path@),
{
    let p = chars_of(path);
    if !starts_with(p.as_slice(), chars_of("/").as_slice()) {
        return true;
    }
    if contains_chars(p.as_slice(), chars_of("/Cryptexes/").as_slice()) {
        return true;
    }
    let prefixes: Vec<&str> = vec![
        "/System/", "/usr/", "/bin/", "/sbin/", "/Library/Apple/", "/Library/CoreMediaIO/",
        "/Library/PrivilegedHelperTools/com.apple.",
    ];
    proof {
        reveal_strlit("/System/"); reveal_strlit("/usr/"); reveal_strlit("/bin/");
        reveal_strlit("/sbin/"); reveal_strlit("/Library/Apple/");
        reveal_strlit("/Library/CoreMediaIO/");
        reveal_strlit("/Library/PrivilegedHelperTools/com.apple.");
        assert(prefixes@.map_values(|s: &str| s@) =~= system_prefixes());
    }
    let mut i: usize = 0;
    while i < prefixes.len()
        invariant
            i <= prefixes@.len(),
            prefixes@.map_values(|s: &str| s@) == system_prefixes(),
            p@ == path@,
            has_prefix(path@, "/"@),
            !contains_sub(path@, "/Cryptexes/"@),
            forall|j: int| 0 <= j < i ==> !has_prefix(p@, #[trigger] system_prefixes()[j]),
        decreases prefixes@.len() - i,
    {
        assert(prefixes@[i as int]@ == system_prefixes()[i as int]);
        if starts_with(p.as_slice(), chars_of(prefixes[i]).as_slice()) {
            assert(has_prefix(p@, system_prefixes()[i as int]));
            return true;
        }
        i += 1;
    }
    false
}

/// The last piece that is a real component: neither empty nor `.`.
pub open spec fn last_component(ps: Seq<Seq<char>>) -> Option<Seq<char>>
    decreases ps.len(),
{
    if ps.len() == 0 {
        None
    } else if ps.last().len() > 0 && ps.last() != "."@ {
        Some(ps.last())
    } else {
        last_component(ps.drop_last())
    }
}

/// `Path::file_name`: the last component, unless it is `..`; empty when
/// there is none.
pub open spec fn file_name_spec(path: Seq<char>) -> Seq<char> {
    match last_component(split(path, '/')) {
        Some(c) => if c == ".."@ {
            Seq::empty()
        } else {
            c
        },
        None => Seq::empty(),
    }
}

/// The last component of a path.
pub fn file_name(path: &str) -> (r: String)
    ensures
        r@ == file_name_spec(path@),
{
    proof {
        reveal_strlit(".");
        reveal_strlit("..");
    }
    let parts = split_chars(chars_of(path).as_slice(), '/');
    let ghost ps = views(parts@);
    let dot = chars_of(".");
    let dots = chars_of("..");
    let mut last: Option<usize> = None;
    let mut i: usize = 0;
    while i < parts.len()
        invariant
            i <= parts@.len(),
            ps == views(parts@),
            dot@ == "."@,
            dots@ == ".."@,
            last matches Some(k) ==> k < i && last_component(ps.take(i as int)) == Some(ps[k as int]),
            last is None ==> last_component(ps.take(i as int)) is None,
        decreases parts@.len() - i,
    {
        proof {
            assert(ps.take(i + 1).drop_last() =~= ps.take(i as int));
            assert(ps.take(i + 1).last() == ps[i as int]);
        }
        assert(ps[i as int] == parts@[i as int]@);
        if parts[i].len() > 0 && !chars_eq(parts[i].as_slice(), dot.as_slice()) {
            last = Some(i);
        }
        i += 1;
    }
    assert(ps.take(parts@.len() as int) =~= ps);
    match last {
        None => String::new(),
        Some(k) => {
            assert(ps[k as int] == parts@[k as int]@);
            if chars_eq(parts[k].as_slice(), dots.as_slice()) {
                String::new()
            } else {
                string_of(parts[k].as_slice())
            }
        },
    }
}

// ── reading `ps` and `top` ──────────────────────────────────────────────────

/// `count` leading fields split off a text (after leading white space), and
/// the rest untouched, which must not be empty.
pub open spec fn split_fields_spec(rest: Seq<char>, count: nat) -> Option<(Seq<Seq<char>>, Seq<char>)>
    decreases count,
{
    if count == 0 {
        if rest.len() > 0 {
            Some((Seq::empty(), rest))
        } else {
            None
        }
    } else {
        let end = ws_index(rest);
        if end < 0 {
            None
        } else {
            match split_fields_spec(trim_start(rest.skip(end)), (count - 1) as nat) {
                Some((fs, r)) => Some((seq![rest.take(end)] + fs, r)),
                None => None,
            }
        }
    }
}

/// Splits `count` leading fields off a line and returns the rest untouched.
pub fn split_fields(line: &str, count: usize) -> (r: Option<(Vec<String>, String)>)
    ensures
        match split_fields_spec(trim_start(line@), count as nat) {
            None => r is None,
            Some((fs, rest)) => r matches Some((v, t)) && crate::config::string_views(v@) == fs
                && t@ == rest,
        },
{
    let l = chars_of(line);
    let start = trim_start_index(l.as_slice());
    let mut rest = slice_to_vec(l.as_slice(), start, l.len());
    let mut fields: Vec<String> = Vec::new();
    let mut k: usize = 0;
    while k < count
        invariant
            k <= count,
            split_fields_spec(trim_start(line@), count as nat) == match split_fields_spec(rest@, (count - k) as nat) {
                Some((fs, r)) => Some((crate::config::string_views(fields@) + fs, r)),
                None => None::<(Seq<Seq<char>>, Seq<char>)>,
            },
        decreases count - k,
    {
        let end = first_word_end(rest.as_slice());
        if end >= rest.len() {
            return None;
        }
        let word = slice_to_vec(rest.as_slice(), 0, end);
        let after = slice_to_vec(rest.as_slice(), end, rest.len());
        let s = trim_start_index(after.as_slice());
        let next = slice_to_vec(after.as_slice(), s, after.len());
        let ghost before = crate::config::string_views(fields@);
        fields.push(string_of(word.as_slice()));
        proof {
            assert(crate::config::string_views(fields@) =~= before.push(word@));
            match split_fields_spec(next@, (count - k - 1) as nat) {
                Some((fs, r)) => {
                    assert(seq![word@] + fs =~= seq![rest@.take(end as int)] + fs);
                    assert(before + (seq![word@] + fs) =~= before.push(word@) + fs);
                },
                None => {},
            }
        }
        rest = next;
        k += 1;
    }
    if rest.len() > 0 {
        Some((fields, string_of(rest.as_slice())))
    } else {
        None
    }
}


/// Trailing `+` and `-` removed (`top` marks growth with them).
pub open spec fn strip_signs(s: Seq<char>) -> Seq<char>
    decreases s.len(),
{
    if s.len() > 0 && (s.last() == '+' || s.last() == '-') {
        strip_signs(s.drop_last())
    } else {
        s
    }
}

/// The multiplier of a `top` unit.
pub open spec fn top_multiplier(unit: Seq<char>) -> Option<nat> {
    if unit == "B"@ {
        Some(1)
    } else if unit == "K"@ {
        Some(1024)
    } else if unit == "M"@ {
        Some(1048576)
    } else if unit == "G"@ {
        Some(1073741824)
    } else if unit == "T"@ {
        Some(1099511627776)
    } else {
        None
    }
}

/// A size printed by `top`: `6257K`, `726M+`, `1.2G`, `512B`, read exactly
/// and truncated to whole bytes.
pub open spec fn top_size(input: Seq<char>) -> Option<u64> {
    let text = strip_signs(input);
    let split = unit_start(text);
    if split < 0 {
        None
    } else {
        match number_parts(text.take(split)) {
            None => None,
            Some((a, b)) => match top_multiplier(text.skip(split)) {
                None => None,
                Some(m) => Some(scaled_value(a, b, m) as u64),
            },
        }
    }
}

fn top_multiplier_of(unit: &[char]) -> (r: Option<u64>)
    ensures
        r matches Some(m) ==> top_multiplier(unit@) == Some(m as nat) && 1 <= m <= TIB,
        r is None ==> top_multiplier(unit@) is None,
{
    if chars_eq(unit, chars_of("B").as_slice()) {
        Some(1)
    } else if chars_eq(unit, chars_of("K").as_slice()) {
        Some(1024)
    } else if chars_eq(unit, chars_of("M").as_slice()) {
        Some(1048576)
    } else if chars_eq(unit, chars_of("G").as_slice()) {
        Some(1073741824)
    } else if chars_eq(unit, chars_of("T").as_slice()) {
        Some(1099511627776)
    } else {
        None
    }
}

/// Parses a size printed by `top`.
pub fn parse_top_size(input: &str) -> (r: Option<u64>)
    ensures
        r == top_size(input@),
{
    let c = chars_of(input);
    let mut j: usize = c.len();
    assert(c@.take(j as int) =~= c@);
    while j > 0 && (c[j - 1] == '+' || c[j - 1] == '-')
        invariant
            j <= c@.len(),
            c@ == input@,
            strip_signs(input@) == strip_signs(c@.take(j as int)),
        decreases j,
    {
        assert(c@.take(j as int).drop_last() =~= c@.take(j - 1));
        j -= 1;
    }
    let text = slice_to_vec(c.as_slice(), 0, j);
    assert(text@ == strip_signs(input@));
    let split = match unit_start_of(text.as_slice()) {
        Some(i) => i,
        None => return None,
    };
    let number = slice_to_vec(text.as_slice(), 0, split);
    let unit = slice_to_vec(text.as_slice(), split, text.len());
    match number_parts_of(number.as_slice()) {
        None => None,
        Some((a, b)) => match top_multiplier_of(unit.as_slice()) {
            None => None,
            Some(m) => Some(scale(a.as_slice(), b.as_slice(), m)),
        },
    }
}

/// Index of the header line of `top` (the one starting with `PID`), or -1.
pub open spec fn header_index(ls: Seq<Seq<char>>) -> int
    decreases ls.len(),
{
    if ls.len() == 0 {
        -1
    } else if has_prefix(trim_start(ls[0]), "PID"@) {
        0
    } else {
        let r = header_index(ls.drop_first());
        if r < 0 {
            -1
        } else {
            r + 1
        }
    }
}

proof fn lemma_header_index_at(ls: Seq<Seq<char>>, k: int)
    requires
        0 <= k <= ls.len(),
        forall|j: int| 0 <= j < k ==> !has_prefix(trim_start(#[trigger] ls[j]), "PID"@),
        k < ls.len() ==> has_prefix(trim_start(ls[k]), "PID"@),
    ensures
        header_index(ls) == (if k < ls.len() { k } else { -1 }),
    decreases ls.len(),
{
    if ls.len() > 0 && k > 0 {
        assert forall|j: int| 0 <= j < k - 1 implies !has_prefix(trim_start(#[trigger] ls.drop_first()[j]), "PID"@) by {
            assert(ls.drop_first()[j] == ls[j + 1]);
        }
        lemma_header_index_at(ls.drop_first(), k - 1);
    }
}

/// One line of `top -stats pid,mem`: the PID and its footprint.
pub open spec fn footprint_line(line: Seq<char>) -> Option<(u32, u64)> {
    let ws = words(line);
    if ws.len() < 2 {
        None
    } else {
        match parse_u32_spec(ws[0]) {
            None => None,
            Some(pid) => match top_size(ws[1]) {
                None => None,
                Some(b) => Some((pid, b)),
            },
        }
    }
}

/// The readable lines, in order.
pub open spec fn footprint_entries(ls: Seq<Seq<char>>) -> Seq<(u32, u64)>
    decreases ls.len(),
{
    if ls.len() == 0 {
        Seq::empty()
    } else {
        footprint_entries(ls.drop_last()) + match footprint_line(ls.last()) {
            Some(e) => seq![e],
            None => Seq::empty(),
        }
    }
}

/// Memory footprint per PID, from the lines after the header of `top`.
pub open spec fn footprints_spec(stdout: Seq<char>) -> Seq<(u32, u64)> {
    let ls = lines(stdout);
    let h = header_index(ls);
    if h < 0 {
        Seq::empty()
    } else {
        footprint_entries(ls.skip(h + 1))
    }
}

fn parse_u32_of(s: &[char]) -> (r: Option<u32>)
    ensures
        r == parse_u32_spec(s@),
{
    match parse_u64(s) {
        Some(v) => if v <= 0xffff_ffff {
            Some(v as u32)
        } else {
            None
        },
        None => None,
    }
}

/// Memory footprint per PID, the figure Activity Monitor shows, read from
/// `top -l 1 -stats pid,mem`. A PID listed twice keeps its last figure.
pub fn footprints(stdout: &str) -> (r: Vec<(u32, u64)>)
    ensures
        r@ == footprints_spec(stdout@),
{
    proof {
        reveal_strlit("PID");
    }
    let ls = lines_of(chars_of(stdout).as_slice());
    let ghost all = lines(stdout@);
    let pid = chars_of("PID");
    let mut h: usize = 0;
    while h < ls.len()
        invariant
            h <= ls@.len(),
            views(ls@) == all,
            pid@ == "PID"@,
            forall|j: int| 0 <= j < h ==> !has_prefix(trim_start(#[trigger] all[j]), "PID"@),
        ensures
            h <= ls@.len(),
            forall|j: int| 0 <= j < h ==> !has_prefix(trim_start(#[trigger] all[j]), "PID"@),
            h < ls@.len() ==> has_prefix(trim_start(all[h as int]), "PID"@),
        decreases ls@.len() - h,
    {
        let line = &ls[h];
        assert(all[h as int] == line@);
        let s = trim_start_index(line.as_slice());
        let t = slice_to_vec(line.as_slice(), s, line.len());
        if starts_with(t.as_slice(), pid.as_slice()) {
            break;
        }
        h += 1;
    }
    proof {
        lemma_header_index_at(all, h as int);
    }
    let mut r: Vec<(u32, u64)> = Vec::new();
    if h == ls.len() {
        return r;
    }
    let ghost body = all.skip(h + 1);
    let mut i: usize = h + 1;
    assert(body.take(0) =~= Seq::<Seq<char>>::empty());
    while i < ls.len()
        invariant
            h < i <= ls@.len(),
            views(ls@) == all,
            body == all.skip(h + 1),
            r@ == footprint_entries(body.take(i - h - 1)),
        decreases ls@.len() - i,
    {
        proof {
            assert(body.take(i - h).drop_last() =~= body.take(i - h - 1));
            assert(body.take(i - h).last() == all[i as int]);
            assert(all[i as int] == ls@[i as int]@);
        }
        let ws = words_of(ls[i].as_slice());
        if ws.len() >= 2 {
            match parse_u32_of(ws[0].as_slice()) {
                None => {},
                Some(p) => match parse_top_size(string_of(ws[1].as_slice()).as_str()) {
                    None => {},
                    Some(b) => {
                        r.push((p, b));
                    },
                },
            }
        }
        proof {
            assert(r@ =~= footprint_entries(body.take(i - h)));
        }
        i += 1;
    }
    assert(body.take(i - h - 1) =~= body);
    r
}

/// The footprint recorded last for a PID.
pub open spec fn footprint_of(es: Seq<(u32, u64)>, pid: u32) -> Option<u64>
    decreases es.len(),
{
    if es.len() == 0 {
        None
    } else if es.last().0 == pid {
        Some(es.last().1)
    } else {
        footprint_of(es.drop_last(), pid)
    }
}

fn footprint_lookup(es: &Vec<(u32, u64)>, pid: u32) -> (r: Option<u64>)
    ensures
        r == footprint_of(es@, pid),
{
    let mut i: usize = es.len();
    assert(es@.take(i as int) =~= es@);
    while i > 0
        invariant
            i <= es@.len(),
            footprint_of(es@, pid) == footprint_of(es@.take(i as int), pid),
        decreases i,
    {
        assert(es@.take(i as int).last() == es@[i - 1]);
        assert(es@.take(i as int).drop_last() =~= es@.take(i - 1));
        if es[i - 1].0 == pid {
            return Some(es[i - 1].1);
        }
        i -= 1;
    }
    None
}

/// What the library reads of a process: pid, parent, user, name, path,
/// bytes, CPU text, elapsed time.
pub open spec fn process_view(p: Process) -> (u32, u32, Seq<char>, Seq<char>, Seq<char>, u64, Seq<char>, Seq<char>) {
    (p.pid, p.ppid, p.user@, p.name@, p.path@, p.bytes, p.cpu@, p.elapsed@)
}

/// One line of `ps -axwwo pid=,ppid=,rss=,%cpu=,etime=,user=,comm=`: the
/// footprint when `top` gave one, the resident size otherwise.
pub open spec fn process_line(line: Seq<char>, fps: Seq<(u32, u64)>) -> Option<(u32, u32, Seq<char>, Seq<char>, Seq<char>, u64, Seq<char>, Seq<char>)> {
    match split_fields_spec(trim_start(line), 6) {
        None => None,
        Some((f, path)) => match parse_u32_spec(f[0]) {
            None => None,
            Some(pid) => {
                let resident = sat_mul(
                    match parse_u64_spec(f[2]) {
                        Some(k) => k,
                        None => 0,
                    },
                    1024,
                );
                Some((
                    pid,
                    match parse_u32_spec(f[1]) {
                        Some(pp) => pp,
                        None => 0,
                    },
                    f[5],
                    file_name_spec(path),
                    path,
                    match footprint_of(fps, pid) {
                        Some(b) => b,
                        None => resident,
                    },
                    f[3],
                    f[4],
                ))
            },
        },
    }
}

/// The processes of the readable lines, in order.
pub open spec fn processes_spec(ls: Seq<Seq<char>>, fps: Seq<(u32, u64)>) -> Seq<(u32, u32, Seq<char>, Seq<char>, Seq<char>, u64, Seq<char>, Seq<char>)>
    decreases ls.len(),
{
    if ls.len() == 0 {
        Seq::empty()
    } else {
        processes_spec(ls.drop_last(), fps) + match process_line(ls.last(), fps) {
            Some(p) => seq![p],
            None => Seq::empty(),
        }
    }
}

proof fn lemma_split_fields_len(rest: Seq<char>, count: nat)
    ensures
        split_fields_spec(rest, count) matches Some((fs, r)) ==> fs.len() == count,
    decreases count,
{
    if count > 0 {
        let end = ws_index(rest);
        if end >= 0 {
            lemma_split_fields_len(trim_start(rest.skip(end)), (count - 1) as nat);
        }
    }
}

/// Lists processes from `ps`, with their footprint from `top`.
pub fn running_processes(ps_stdout: &str, footprints: &Vec<(u32, u64)>) -> (r: Vec<Process>)
    ensures
        r@.map_values(|p: Process| process_view(p)) == processes_spec(lines(ps_stdout@), footprints@),
        forall|i: int| 0 <= i < r@.len() ==> (#[trigger] r@[i]).args is None,
{
    let ls = lines_of(chars_of(ps_stdout).as_slice());
    let ghost all = lines(ps_stdout@);
    let mut r: Vec<Process> = Vec::new();
    let mut i: usize = 0;
    while i < ls.len()
        invariant
            i <= ls@.len(),
            views(ls@) == all,
            r@.map_values(|p: Process| process_view(p)) == processes_spec(all.take(i as int), footprints@),
            forall|k: int| 0 <= k < r@.len() ==> (#[trigger] r@[k]).args is None,
        decreases ls@.len() - i,
    {
        proof {
            assert(all.take(i + 1).drop_last() =~= all.take(i as int));
            assert(all.take(i + 1).last() == ls@[i as int]@);
        }
        let line = string_of(ls[i].as_slice());
        let ghost before = r@;
        match split_fields(line.as_str(), 6) {
            None => {},
            Some((f, path)) => {
                proof {
                    lemma_split_fields_len(trim_start(line@), 6);
                    assert(crate::config::string_views(f@).len() == 6);
                }
                assert(f@[0]@ == crate::config::string_views(f@)[0]);
                assert(f@[1]@ == crate::config::string_views(f@)[1]);
                assert(f@[2]@ == crate::config::string_views(f@)[2]);
                assert(f@[3]@ == crate::config::string_views(f@)[3]);
                assert(f@[4]@ == crate::config::string_views(f@)[4]);
                assert(f@[5]@ == crate::config::string_views(f@)[5]);
                match parse_u32_of(chars_of(f[0].as_str()).as_slice()) {
                    None => {},
                    Some(pid) => {
                        let kb = match parse_u64(chars_of(f[2].as_str()).as_slice()) {
                            Some(k) => k,
                            None => 0,
                        };
                        let resident = match kb.checked_mul(1024) {
                            Some(v) => v,
                            None => u64::MAX,
                        };
                        let ppid = match parse_u32_of(chars_of(f[1].as_str()).as_slice()) {
                            Some(pp) => pp,
                            None => 0,
                        };
                        let bytes = match footprint_lookup(footprints, pid) {
                            Some(b) => b,
                            None => resident,
                        };
                        let name = file_name(path.as_str());
                        let p = Process {
                            pid,
                            ppid,
                            user: f[5].clone(),
                            name,
                            path,
                            bytes,
                            cpu: f[3].clone(),
                            elapsed: f[4].clone(),
                            args: None,
                        };
                        r.push(p);
                    },
                }
            },
        }
        proof {
            assert(r@.map_values(|p: Process| process_view(p)) =~= processes_spec(all.take(i + 1), footprints@));
        }
        i += 1;
    }
    assert(all.take(ls@.len() as int) =~= all);
    r
}

/// Percentage of free memory from `memory_pressure -Q`: the first line that
/// mentions it decides.
pub open spec fn free_percent_spec(stdout: Seq<char>) -> Option<u8> {
    let ls = lines(stdout);
    let pat = "free percentage:"@;
    if exists|i: int| 0 <= i < ls.len() && contains_sub(#[trigger] ls[i], pat) {
        let i = choose|i: int|
            0 <= i < ls.len() && contains_sub(#[trigger] ls[i], pat) && forall|j: int|
                0 <= j < i ==> !contains_sub(#[trigger] ls[j], pat);
        let after = ls[i].skip(find_sub(ls[i], pat) + pat.len());
        let k = find_sub(after, pat);
        let piece = if k < 0 {
            after
        } else {
            after.take(k)
        };
        parse_u8_spec(trim_end_char(trim(piece), '%'))
    } else {
        None
    }
}

/// Reads the free-memory percentage `memory_pressure -Q` reports.
pub fn free_percent(stdout: &str) -> (r: Option<u8>)
    ensures
        r == free_percent_spec(stdout@),
{
    proof {
        reveal_strlit("free percentage:");
    }
    let ls = lines_of(chars_of(stdout).as_slice());
    let ghost all = lines(stdout@);
    let pat = chars_of("free percentage:");
    let mut i: usize = 0;
    while i < ls.len()
        invariant
            i <= ls@.len(),
            views(ls@) == all,
            all == lines(stdout@),
            pat@ == "free percentage:"@,
            forall|j: int| 0 <= j < i ==> !contains_sub(#[trigger] all[j], "free percentage:"@),
        decreases ls@.len() - i,
    {
        let line = &ls[i];
        assert(all[i as int] == line@);
        match find_sub_index(line.as_slice(), pat.as_slice()) {
            None => {},
            Some(at) => {
                proof {
                    crate::text::lemma_find_sub_bound(line@, pat@);
                    let p = "free percentage:"@;
                    let w = choose|w: int|
                        0 <= w < all.len() && contains_sub(#[trigger] all[w], p) && forall|j: int|
                            0 <= j < w ==> !contains_sub(#[trigger] all[j], p);
                    assert(contains_sub(all[i as int], p) && forall|j: int|
                        0 <= j < i ==> !contains_sub(#[trigger] all[j], p));
                    if w < i {
                    } else if w > i {
                        assert(!contains_sub(all[i as int], p));
                    }
                }
                let ll = line.len();
                let pl = pat.len();
                assert(at + pl <= ll);
                let after = slice_to_vec(line.as_slice(), at + pl, ll);
                let piece = match find_sub_index(after.as_slice(), pat.as_slice()) {
                    None => after,
                    Some(k) => slice_to_vec(after.as_slice(), 0, k),
                };
                let t = trim_chars(piece.as_slice());
                let digits = trim_end_char_of(t.as_slice(), '%');
                return match parse_u64(digits.as_slice()) {
                    Some(v) => if v <= 255 {
                        Some(v as u8)
                    } else {
                        None
                    },
                    None => None,
                };
            },
        }
        i += 1;
    }
    None
}

/// One line of `ps -axwwo pid=,args=`: the PID and its command line.
pub open spec fn command_line(line: Seq<char>) -> Option<(u32, Seq<char>)> {
    match split_fields_spec(trim_start(line), 1) {
        None => None,
        Some((f, args)) => match parse_u32_spec(f[0]) {
            None => None,
            Some(pid) => Some((pid, args)),
        },
    }
}

/// The command lines of the readable lines, in order.
pub open spec fn command_lines_spec(ls: Seq<Seq<char>>) -> Seq<(u32, Seq<char>)>
    decreases ls.len(),
{
    if ls.len() == 0 {
        Seq::empty()
    } else {
        command_lines_spec(ls.drop_last()) + match command_line(ls.last()) {
            Some(e) => seq![e],
            None => Seq::empty(),
        }
    }
}

/// Full command lines per PID, read from `ps -axwwo pid=,args=`.
pub fn command_lines(stdout: &str) -> (r: Vec<(u32, String)>)
    ensures
        r@.map_values(|e: (u32, String)| (e.0, e.1@)) == command_lines_spec(lines(stdout@)),
{
    let ls = lines_of(chars_of(stdout).as_slice());
    let ghost all = lines(stdout@);
    let mut r: Vec<(u32, String)> = Vec::new();
    let mut i: usize = 0;
    while i < ls.len()
        invariant
            i <= ls@.len(),
            views(ls@) == all,
            r@.map_values(|e: (u32, String)| (e.0, e.1@)) == command_lines_spec(all.take(i as int)),
        decreases ls@.len() - i,
    {
        proof {
            assert(all.take(i + 1).drop_last() =~= all.take(i as int));
            assert(all.take(i + 1).last() == ls@[i as int]@);
        }
        let line = string_of(ls[i].as_slice());
        match split_fields(line.as_str(), 1) {
            None => {},
            Some((f, args)) => {
                proof {
                    lemma_split_fields_len(trim_start(line@), 1);
                }
                assert(f@[0]@ == crate::config::string_views(f@)[0]);
                match parse_u32_of(chars_of(f[0].as_str()).as_slice()) {
                    None => {},
                    Some(pid) => {
                        r.push((pid, args));
                    },
                }
            },
        }
        proof {
            assert(r@.map_values(|e: (u32, String)| (e.0, e.1@)) =~= command_lines_spec(all.take(i + 1)));
        }
        i += 1;
    }
    assert(all.take(ls@.len() as int) =~= all);
    r
}

/// The command line recorded last for a PID.
pub open spec fn command_of(es: Seq<(u32, Seq<char>)>, pid: u32) -> Option<Seq<char>>
    decreases es.len(),
{
    if es.len() == 0 {
        None
    } else if es.last().0 == pid {
        Some(es.last().1)
    } else {
        command_of(es.drop_last(), pid)
    }
}

fn command_lookup(es: &Vec<(u32, String)>, pid: u32) -> (r: Option<String>)
    ensures
        match command_of(es@.map_values(|e: (u32, String)| (e.0, e.1@)), pid) {
            None => r is None,
            Some(a) => r matches Some(s) && s@ == a,
        },
{
    let ghost v = es@.map_values(|e: (u32, String)| (e.0, e.1@));
    let mut i: usize = es.len();
    assert(v.take(i as int) =~= v);
    while i > 0
        invariant
            i <= es@.len(),
            v == es@.map_values(|e: (u32, String)| (e.0, e.1@)),
            command_of(v, pid) == command_of(v.take(i as int), pid),
        decreases i,
    {
        assert(v.take(i as int).last() == v[i - 1]);
        assert(v.take(i as int).drop_last() =~= v.take(i - 1));
        if es[i - 1].0 == pid {
            return Some(es[i - 1].1.clone());
        }
        i -= 1;
    }
    None
}

/// Fills in the command line of every process of a group (the last one
/// listed for its PID, if any).
pub fn with_command_lines(group: &mut Group, lines: &Vec<(u32, String)>)
    ensures
        final(group).name == old(group).name,
        final(group).bytes == old(group).bytes,
        final(group).processes@.len() == old(group).processes@.len(),
        forall|i: int| 0 <= i < final(group).processes@.len() ==> {
            let p = #[trigger] final(group).processes@[i];
            let q = old(group).processes@[i];
            &&& process_view(p) == process_view(q)
            &&& match command_of(lines@.map_values(|e: (u32, String)| (e.0, e.1@)), q.pid) {
                None => p.args is None,
                Some(a) => p.args matches Some(s) && s@ == a,
            }
        },
{
    let ghost before = group.processes@;
    let mut rest: Vec<Process> = Vec::new();
    std::mem::swap(&mut rest, &mut group.processes);
    let mut done: Vec<Process> = Vec::new();
    let n = rest.len();
    let mut i: usize = 0;
    while i < n
        invariant
            i <= n,
            n == before.len(),
            rest@ == before.skip(i as int),
            done@.len() == i,
            forall|k: int| 0 <= k < i ==> {
                let p = #[trigger] done@[k];
                let q = before[k];
                &&& process_view(p) == process_view(q)
                &&& match command_of(lines@.map_values(|e: (u32, String)| (e.0, e.1@)), q.pid) {
                    None => p.args is None,
                    Some(a) => p.args matches Some(s) && s@ == a,
                }
            },
        decreases n - i,
    {
        assert(rest@[0] == before[i as int]);
        let mut p = rest.remove(0);
        assert(rest@ =~= before.skip(i + 1));
        p.args = command_lookup(lines, p.pid);
        done.push(p);
        i += 1;
    }
    group.processes = done;
}


// ── naming a group ──────────────────────────────────────────────────────────

/// The alphanumeric characters of a query, lowered.
pub open spec fn needle_of(q: Seq<char>) -> Seq<char>
    decreases q.len(),
{
    if q.len() == 0 {
        Seq::empty()
    } else {
        needle_of(q.drop_last()) + (if alphanumeric(q.last()) {
            char_lowercase(q.last())
        } else {
            Seq::empty()
        })
    }
}

/// Length of the leading run of alphanumeric characters.
pub open spec fn run_len(s: Seq<char>) -> int
    decreases s.len(),
{
    if s.len() == 0 || !alphanumeric(s[0]) {
        0
    } else {
        1 + run_len(s.drop_first())
    }
}

pub proof fn lemma_run_len(s: Seq<char>)
    ensures
        0 <= run_len(s) <= s.len(),
        s.len() > 0 && alphanumeric(s[0]) ==> run_len(s) >= 1,
    decreases s.len(),
{
    if s.len() > 0 && alphanumeric(s[0]) {
        lemma_run_len(s.drop_first());
    }
}

/// The words of a name: its runs of alphanumeric characters.
pub open spec fn alnum_runs(s: Seq<char>) -> Seq<Seq<char>>
    decreases s.len(),
{
    if s.len() == 0 {
        Seq::empty()
    } else if !alphanumeric(s[0]) {
        alnum_runs(s.drop_first())
    } else {
        proof {
            lemma_run_len(s);
        }
        seq![s.take(run_len(s))] + alnum_runs(s.skip(run_len(s)))
    }
}

/// Length of the common prefix of two texts.
pub open spec fn common_prefix(a: Seq<char>, b: Seq<char>) -> int
    decreases a.len(),
{
    if a.len() == 0 || b.len() == 0 || a[0] != b[0] {
        0
    } else {
        1 + common_prefix(a.drop_first(), b.drop_first())
    }
}

proof fn lemma_common_prefix(a: Seq<char>, b: Seq<char>)
    ensures
        0 <= common_prefix(a, b) <= a.len(),
        common_prefix(a, b) <= b.len(),
    decreases a.len(),
{
    if a.len() > 0 && b.len() > 0 && a[0] == b[0] {
        lemma_common_prefix(a.drop_first(), b.drop_first());
    }
}

/// The words, in order, each eat the longest common prefix of what is left
/// of the needle; true once nothing is left.
pub open spec fn consumed_by(rest: Seq<char>, ws: Seq<Seq<char>>) -> bool
    decreases ws.len(),
{
    if ws.len() == 0 {
        false
    } else {
        let left = rest.skip(common_prefix(rest, ws[0]));
        if left.len() == 0 {
            true
        } else {
            consumed_by(left, ws.drop_first())
        }
    }
}

/// `vs code` and `vscode` both find `Visual Studio Code`.
pub open spec fn matches_words_spec(name: Seq<char>, query: Seq<char>) -> bool {
    let needle = needle_of(query);
    needle.len() > 0 && consumed_by(needle, alnum_runs(lowercase(name)))
}

fn needle_chars(query: &str) -> (r: Vec<char>)
    ensures
        r@ == needle_of(query@),
{
    let q = chars_of(query);
    let mut r: Vec<char> = Vec::new();
    let mut i: usize = 0;
    while i < q.len()
        invariant
            i <= q@.len(),
            q@ == query@,
            r@ == needle_of(q@.take(i as int)),
        decreases q@.len() - i,
    {
        assert(q@.take(i + 1).drop_last() =~= q@.take(i as int));
        assert(q@.take(i + 1).last() == q@[i as int]);
        if is_alphanumeric(q[i]) {
            let low = lower_char(q[i]);
            let ghost before = r@;
            let mut j: usize = 0;
            while j < low.len()
                invariant
                    j <= low@.len(),
                    r@ == before + low@.take(j as int),
                decreases low@.len() - j,
            {
                r.push(low[j]);
                assert(low@.take(j + 1) =~= low@.take(j as int).push(low@[j as int]));
                j += 1;
            }
            assert(low@.take(low@.len() as int) =~= low@);
        } else {
            assert(needle_of(q@.take(i + 1)) =~= needle_of(q@.take(i as int)));
        }
        i += 1;
    }
    assert(q@.take(q@.len() as int) =~= q@);
    r
}

fn alnum_runs_of(s: &[char]) -> (r: Vec<Vec<char>>)
    ensures
        views(r@) == alnum_runs(s@),
{
    let mut r: Vec<Vec<char>> = Vec::new();
    let mut i: usize = 0;
    assert(s@.skip(0) =~= s@);
    while i < s.len()
        invariant
            i <= s@.len(),
            views(r@) + alnum_runs(s@.skip(i as int)) == alnum_runs(s@),
        decreases s@.len() - i,
    {
        let rest = slice_to_vec(s, i, s.len());
        assert(rest@ == s@.skip(i as int));
        if !is_alphanumeric(s[i]) {
            assert(rest@.drop_first() =~= s@.skip(i + 1));
            i += 1;
        } else {
            proof {
                lemma_run_len(rest@);
            }
            let mut w: usize = 0;
            assert(rest@.skip(0) =~= rest@);
            while w < rest.len() && is_alphanumeric(rest[w])
                invariant
                    w <= rest@.len(),
                    run_len(rest@) == w + run_len(rest@.skip(w as int)),
                decreases rest@.len() - w,
            {
                assert(rest@.skip(w as int).drop_first() =~= rest@.skip(w + 1));
                w += 1;
            }
            assert(rest@.skip(0) =~= rest@);
            let word = slice_to_vec(rest.as_slice(), 0, w);
            let ghost before = views(r@);
            r.push(word);
            assert(views(r@) =~= before.push(word@));
            assert(rest@.skip(w as int) =~= s@.skip(i + w));
            assert(views(r@) + alnum_runs(s@.skip(i + w)) =~= before + alnum_runs(s@.skip(i as int)));
            i += w;
        }
    }
    assert(alnum_runs(s@.skip(i as int)) =~= Seq::<Seq<char>>::empty());
    assert(views(r@) =~= views(r@) + Seq::<Seq<char>>::empty());
    r
}

/// Whether the words of a name eat the query letter by letter, in order:
/// each word eats the longest common prefix, possibly none at all.
pub fn matches_words(name: &str, query: &str) -> (r: bool)
    ensures
        r == matches_words_spec(name@, query@),
{
    let needle = needle_chars(query);
    if needle.len() == 0 {
        return false;
    }
    let low = to_lowercase(name);
    let ws = alnum_runs_of(chars_of(low.as_str()).as_slice());
    let ghost all = views(ws@);
    let mut rest = needle;
    let mut k: usize = 0;
    assert(all.skip(0) =~= all);
    while k < ws.len()
        invariant
            k <= ws@.len(),
            all == views(ws@),
            all == alnum_runs(lowercase(name@)),
            needle_of(query@).len() > 0,
            rest@.len() > 0,
            consumed_by(needle_of(query@), all) == consumed_by(rest@, all.skip(k as int)),
        decreases ws@.len() - k,
    {
        let word = &ws[k];
        assert(all.skip(k as int)[0] == word@);
        assert(all.skip(k as int).drop_first() =~= all.skip(k + 1));
        let mut c: usize = 0;
        assert(rest@.skip(0) =~= rest@);
        assert(word@.skip(0) =~= word@);
        while c < rest.len() && c < word.len() && rest[c] == word[c]
            invariant
                c <= rest@.len(),
                c <= word@.len(),
                common_prefix(rest@, word@) == c + common_prefix(rest@.skip(c as int), word@.skip(c as int)),
            decreases rest@.len() - c,
        {
            assert(rest@.skip(c as int).drop_first() =~= rest@.skip(c + 1));
            assert(word@.skip(c as int).drop_first() =~= word@.skip(c + 1));
            c += 1;
        }
        assert(rest@.skip(0) =~= rest@);
        assert(word@.skip(0) =~= word@);
        let left = slice_to_vec(rest.as_slice(), c, rest.len());
        assert(left@ =~= rest@.skip(c as int));
        assert(common_prefix(rest@.skip(c as int), word@.skip(c as int)) == 0);
        assert(common_prefix(rest@, word@) == c);
        if left.len() == 0 {
            return true;
        }
        rest = left;
        k += 1;
    }
    false
}

/// Indices as integers.
pub open spec fn as_ints(v: Seq<usize>) -> Seq<int> {
    v.map_values(|i: usize| i as int)
}

/// Result of looking a group up by name: indices into the list searched.
#[derive(Debug, Clone)]
pub enum Lookup {
    /// Exactly one group matches.
    One(usize),
    /// Several matches: the query must be narrowed.
    Ambiguous(Vec<usize>),
    /// No match at all.
    NotFound,
}

/// The tests, from the strictest to the most permissive: exact name (case
/// matters: it tells an application from a command-line tool that differs
/// from it only by case), same name in lower case, name containing the query
/// in lower case, then a word-by-word match.
pub open spec fn name_matches(kind: int, name: Seq<char>, q: Seq<char>) -> bool {
    if kind == 0 {
        name == q
    } else if kind == 1 {
        lowercase(name) == lowercase(q)
    } else if kind == 2 {
        contains_sub(lowercase(name), lowercase(q))
    } else {
        matches_words_spec(name, q)
    }
}

/// Indices of the first `n` names that pass a test.
pub open spec fn matching(names: Seq<Seq<char>>, kind: int, q: Seq<char>, n: int) -> Seq<int>
    decreases n,
{
    if n <= 0 {
        Seq::empty()
    } else {
        matching(names, kind, q, n - 1) + (if name_matches(kind, names[n - 1], q) {
            seq![n - 1]
        } else {
            Seq::empty()
        })
    }
}

/// The first test, in order, that some name passes, or 4.
pub open spec fn first_kind(names: Seq<Seq<char>>, q: Seq<char>, kind: int) -> int
    decreases 4 - kind,
{
    if kind >= 4 {
        4
    } else if matching(names, kind, q, names.len() as int).len() > 0 {
        kind
    } else {
        first_kind(names, q, kind + 1)
    }
}

/// The group names.
pub open spec fn group_names(groups: Seq<Group>) -> Seq<Seq<char>> {
    groups.map_values(|g: Group| g.name@)
}

fn name_test(kind: u8, name: &str, q: &str) -> (r: bool)
    requires
        kind < 4,
    ensures
        r == name_matches(kind as int, name@, q@),
{
    if kind == 0 {
        chars_eq(chars_of(name).as_slice(), chars_of(q).as_slice())
    } else if kind == 1 {
        let a = to_lowercase(name);
        let b = to_lowercase(q);
        chars_eq(chars_of(a.as_str()).as_slice(), chars_of(b.as_str()).as_slice())
    } else if kind == 2 {
        let a = to_lowercase(name);
        let b = to_lowercase(q);
        contains_chars(chars_of(a.as_str()).as_slice(), chars_of(b.as_str()).as_slice())
    } else {
        matches_words(name, q)
    }
}

/// What looking `q` up among `names` gives: the first test that some name
/// passes decides; one match is the answer, several are ambiguous.
pub open spec fn looked_up(names: Seq<Seq<char>>, q: Seq<char>, r: Lookup) -> bool {
    let k = first_kind(names, q, 0);
    let found = matching(names, k, q, names.len() as int);
    &&& k == 4 ==> r is NotFound
    &&& k < 4 && found.len() == 1 ==> r == Lookup::One(found[0] as usize)
    &&& k < 4 && found.len() > 1 ==> (r matches Lookup::Ambiguous(v) && as_ints(v@) == found)
}

/// Finds a name from an approximate one (trimmed), by position: an exact
/// name wins outright, so `Notes` never drags in `Notes Helper`.
pub fn find_name(names: &Vec<String>, query: &str) -> (r: Lookup)
    ensures
        looked_up(crate::task::texts(names@), trim(query@), r),
{
    let needle = string_of(trim_chars(chars_of(query).as_slice()).as_slice());
    let ghost all = crate::task::texts(names@);
    let ghost q = trim(query@);
    let mut kind: u8 = 0;
    while kind < 4
        invariant
            kind <= 4,
            needle@ == q,
            q == trim(query@),
            all == crate::task::texts(names@),
            first_kind(all, q, 0) == first_kind(all, q, kind as int),
        decreases 4 - kind,
    {
        let mut found: Vec<usize> = Vec::new();
        let mut i: usize = 0;
        while i < names.len()
            invariant
                i <= names@.len(),
                kind < 4,
                needle@ == q,
                all == crate::task::texts(names@),
                as_ints(found@) == matching(all, kind as int, q, i as int),
            decreases names@.len() - i,
        {
            assert(all[i as int] == names@[i as int]@);
            if name_test(kind, names[i].as_str(), needle.as_str()) {
                found.push(i);
            }
            assert(as_ints(found@) =~= matching(all, kind as int, q, i + 1));
            i += 1;
        }
        assert(all.len() == names@.len());
        if found.len() >= 1 {
            assert(matching(all, kind as int, q, all.len() as int).len() > 0);
            assert(first_kind(all, q, kind as int) == kind as int);
        }
        if found.len() == 1 {
            assert(as_ints(found@)[0] == found@[0] as int);
            return Lookup::One(found[0]);
        }
        if found.len() > 1 {
            return Lookup::Ambiguous(found);
        }
        kind += 1;
    }
    Lookup::NotFound
}

/// Whether one of the groups runs from this bundle.
pub open spec fn runs_from(groups: Seq<Group>, bundle: Seq<char>) -> bool {
    exists|i: int| 0 <= i < groups.len() && ((#[trigger] groups[i]).bundle matches Some(b) && b@ == bundle)
}

/// Whether an application is running, by its bundle: `uninstall` refuses to
/// remove one out from under itself.
pub fn is_running(groups: &Vec<Group>, bundle: &str) -> (r: bool)
    ensures
        r == runs_from(groups@, bundle@),
{
    let mut i: usize = 0;
    while i < groups.len()
        invariant
            i <= groups@.len(),
            forall|k: int| 0 <= k < i ==> !((#[trigger] groups@[k]).bundle matches Some(b) && b@ == bundle@),
        decreases groups@.len() - i,
    {
        match &groups[i].bundle {
            Some(b) => {
                if chars_eq(chars_of(b.as_str()).as_slice(), chars_of(bundle).as_slice()) {
                    return true;
                }
            },
            None => {},
        }
        i += 1;
    }
    false
}

/// Finds a group from an approximate name (trimmed): the first test that
/// some group passes decides; one match is the answer, several are
/// ambiguous.
pub fn find(groups: &Vec<Group>, query: &str) -> (r: Lookup)
    ensures
        looked_up(group_names(groups@), trim(query@), r),
{
    let mut names: Vec<String> = Vec::new();
    let mut i: usize = 0;
    while i < groups.len()
        invariant
            i <= groups@.len(),
            names@.len() == i,
            forall|k: int| 0 <= k < i ==> (#[trigger] names@[k])@ == groups@[k].name@,
        decreases groups@.len() - i,
    {
        let name = groups[i].name.clone();
        names.push(name);
        i += 1;
    }
    assert(crate::task::texts(names@) =~= group_names(groups@));
    find_name(&names, query)
}

// ── a group's process tree ──────────────────────────────────────────────────

/// Whether some process of the list has this PID.
pub open spec fn has_pid(ps: Seq<Process>, pid: u32) -> bool {
    exists|j: int| 0 <= j < ps.len() && (#[trigger] ps[j]).pid == pid
}

fn pid_in(ps: &Vec<Process>, pid: u32) -> (r: bool)
    ensures
        r == has_pid(ps@, pid),
{
    let mut j: usize = 0;
    while j < ps.len()
        invariant
            j <= ps@.len(),
            forall|k: int| 0 <= k < j ==> (#[trigger] ps@[k]).pid != pid,
        decreases ps@.len() - j,
    {
        if ps[j].pid == pid {
            return true;
        }
        j += 1;
    }
    false
}

/// Indices of the first `n` processes whose parent lies outside the list.
pub open spec fn roots_upto(ps: Seq<Process>, n: int) -> Seq<int>
    decreases n,
{
    if n <= 0 {
        Seq::empty()
    } else {
        roots_upto(ps, n - 1) + (if !has_pid(ps, ps[n - 1].ppid) {
            seq![n - 1]
        } else {
            Seq::empty()
        })
    }
}

/// Indices of the first `n` processes whose parent has this PID.
pub open spec fn children_upto(ps: Seq<Process>, parent: u32, n: int) -> Seq<int>
    decreases n,
{
    if n <= 0 {
        Seq::empty()
    } else {
        children_upto(ps, parent, n - 1) + (if ps[n - 1].ppid == parent {
            seq![n - 1]
        } else {
            Seq::empty()
        })
    }
}

/// Parent → children tree inside a group, by index: the roots (processes
/// whose parent lies outside the group), and for each process its
/// children, in order.
pub fn tree(group: &Group) -> (r: (Vec<usize>, Vec<Vec<usize>>))
    ensures
        as_ints(r.0@) == roots_upto(group.processes@, group.processes@.len() as int),
        r.1@.len() == group.processes@.len(),
        forall|i: int| 0 <= i < r.1@.len() ==> as_ints((#[trigger] r.1@[i])@)
            == children_upto(group.processes@, group.processes@[i].pid, group.processes@.len() as int),
{
    let ps = &group.processes;
    let n = ps.len();
    let mut roots: Vec<usize> = Vec::new();
    let mut i: usize = 0;
    while i < n
        invariant
            i <= n,
            n == ps@.len(),
            as_ints(roots@) == roots_upto(ps@, i as int),
        decreases n - i,
    {
        if !pid_in(ps, ps[i].ppid) {
            roots.push(i);
        }
        assert(as_ints(roots@) =~= roots_upto(ps@, i + 1));
        i += 1;
    }
    let mut children: Vec<Vec<usize>> = Vec::new();
    let mut p: usize = 0;
    while p < n
        invariant
            p <= n,
            n == ps@.len(),
            children@.len() == p,
            forall|x: int| 0 <= x < p ==> as_ints((#[trigger] children@[x])@)
                == children_upto(ps@, ps@[x].pid, n as int),
        decreases n - p,
    {
        let parent = ps[p].pid;
        let mut mine: Vec<usize> = Vec::new();
        let mut j: usize = 0;
        while j < n
            invariant
                j <= n,
                n == ps@.len(),
                as_ints(mine@) == children_upto(ps@, parent, j as int),
            decreases n - j,
        {
            if ps[j].ppid == parent {
                mine.push(j);
            }
            assert(as_ints(mine@) =~= children_upto(ps@, parent, j + 1));
            j += 1;
        }
        children.push(mine);
        p += 1;
    }
    (roots, children)
}

// ── stopping an application ─────────────────────────────────────────────────

/// Report of a group shutdown.
#[derive(Debug, Clone)]
pub struct Killed {
    pub group: String,
    pub signal: &'static str,
    /// Memory held by the targeted processes.
    pub bytes: u64,
    /// Processes that actually stopped.
    pub terminated: Vec<u32>,
    /// Processes still alive after the signal.
    pub survived: Vec<u32>,
    pub errors: Vec<String>,
}

/// The signal flag given to `kill`.
pub fn signal_flag(force: bool) -> (r: &'static str)
    ensures
        r@ == (if force { "-KILL"@ } else { "-TERM"@ }),
{
    if force {
        "-KILL"
    } else {
        "-TERM"
    }
}

/// The processes to signal, first `n` considered, whose parent lies outside
/// the group (`roots`) or inside it; never the tool's own process.
pub open spec fn signalled(ps: Seq<Process>, own: u32, roots: bool, n: int) -> Seq<int>
    decreases n,
{
    if n <= 0 {
        Seq::empty()
    } else {
        signalled(ps, own, roots, n - 1) + (if ps[n - 1].pid != own && (roots == !has_pid(
            ps,
            ps[n - 1].ppid,
        )) {
            seq![n - 1]
        } else {
            Seq::empty()
        })
    }
}

/// The order in which a group is signalled: root processes first, so that
/// the helpers of an Electron app shut down on their own instead of showing
/// a crash window; the tool's own process is left out.
pub open spec fn kill_order_spec(ps: Seq<Process>, own: u32) -> Seq<int> {
    signalled(ps, own, true, ps.len() as int) + signalled(ps, own, false, ps.len() as int)
}

fn signalled_of(ps: &Vec<Process>, own: u32, roots: bool) -> (r: Vec<usize>)
    ensures
        as_ints(r@) == signalled(ps@, own, roots, ps@.len() as int),
        forall|i: int| 0 <= i < r@.len() ==> (#[trigger] r@[i]) < ps@.len(),
{
    let mut r: Vec<usize> = Vec::new();
    let mut i: usize = 0;
    while i < ps.len()
        invariant
            i <= ps@.len(),
            as_ints(r@) == signalled(ps@, own, roots, i as int),
            forall|k: int| 0 <= k < r@.len() ==> (#[trigger] r@[k]) < i,
        decreases ps@.len() - i,
    {
        if ps[i].pid != own && (roots == !pid_in(ps, ps[i].ppid)) {
            r.push(i);
        }
        assert(as_ints(r@) =~= signalled(ps@, own, roots, i + 1));
        i += 1;
    }
    r
}

/// The processes of a group in the order they are signalled, by index.
pub fn kill_order(group: &Group, own: u32) -> (r: Vec<usize>)
    ensures
        as_ints(r@) == kill_order_spec(group.processes@, own),
        forall|i: int| 0 <= i < r@.len() ==> (#[trigger] r@[i]) < group.processes@.len(),
{
    let mut r = signalled_of(&group.processes, own, true);
    let mut children = signalled_of(&group.processes, own, false);
    let ghost a = r@;
    let ghost b = children@;
    r.append(&mut children);
    assert(r@ =~= a + b);
    assert(as_ints(r@) =~= as_ints(a) + as_ints(b));
    r
}

/// Whether a signal counts as delivered: sent, or refused because the
/// process was already gone with its parent.
pub open spec fn delivered(sent: Result<(), String>) -> bool {
    match sent {
        Ok(_) => true,
        Err(e) => contains_sub(e@, "No such process"@),
    }
}

/// PIDs reported as terminated, over the first `n` signals.
pub open spec fn terminated_spec(ps: Seq<Process>, order: Seq<int>, sent: Seq<Result<(), String>>, dry_run: bool, n: int) -> Seq<u32>
    decreases n,
{
    if n <= 0 {
        Seq::empty()
    } else {
        terminated_spec(ps, order, sent, dry_run, n - 1) + (if dry_run || delivered(sent[n - 1]) {
            seq![ps[order[n - 1]].pid]
        } else {
            Seq::empty()
        })
    }
}

/// Errors reported, over the first `n` signals.
pub open spec fn kill_errors_spec(ps: Seq<Process>, order: Seq<int>, sent: Seq<Result<(), String>>, dry_run: bool, n: int) -> Seq<Seq<char>>
    decreases n,
{
    if n <= 0 {
        Seq::empty()
    } else {
        kill_errors_spec(ps, order, sent, dry_run, n - 1) + (if !dry_run && !delivered(sent[n - 1]) {
            seq![ps[order[n - 1]].name@ + " ["@ + crate::text::decimal(ps[order[n - 1]].pid as nat) + "] : "@ + sent[n - 1]->Err_0@]
        } else {
            Seq::empty()
        })
    }
}

/// Reports the signals sent to a group, in `kill_order`: `sent` holds the
/// outcome of each `kill` (nothing is sent under `--dry-run`). Who survived
/// is settled afterwards by `settle`.
pub fn kill(group: &Group, force: bool, dry_run: bool, own: u32, sent: &Vec<Result<(), String>>) -> (r: Killed)
    requires
        !dry_run ==> sent@.len() == kill_order_spec(group.processes@, own).len(),
    ensures
        r.group@ == group.name@,
        r.signal@ == (if force { "SIGKILL"@ } else { "SIGTERM"@ }),
        r.bytes == group.bytes,
        r.survived@.len() == 0,
        ({
            let order = kill_order_spec(group.processes@, own);
            &&& r.terminated@ == terminated_spec(group.processes@, order, sent@, dry_run, order.len() as int)
            &&& crate::task::texts(r.errors@) == kill_errors_spec(group.processes@, order, sent@, dry_run, order.len() as int)
        }),
{
    proof {
        reveal_strlit("No such process");
        reveal_strlit(" [");
        reveal_strlit("] : ");
    }
    let order = kill_order(group, own);
    let ghost ord = as_ints(order@);
    let ps = &group.processes;
    let gone = chars_of("No such process");
    let mut report = Killed {
        group: group.name.clone(),
        signal: if force { "SIGKILL" } else { "SIGTERM" },
        bytes: group.bytes,
        terminated: Vec::new(),
        survived: Vec::new(),
        errors: Vec::new(),
    };
    let mut k: usize = 0;
    while k < order.len()
        invariant
            k <= order@.len(),
            ord == as_ints(order@),
            ord == kill_order_spec(ps@, own),
            !dry_run ==> sent@.len() == order@.len(),
            forall|i: int| 0 <= i < order@.len() ==> (#[trigger] order@[i]) < ps@.len(),
            gone@ == "No such process"@,
            report.group@ == group.name@,
            report.signal@ == (if force { "SIGKILL"@ } else { "SIGTERM"@ }),
            report.bytes == group.bytes,
            report.survived@.len() == 0,
            report.terminated@ == terminated_spec(ps@, ord, sent@, dry_run, k as int),
            crate::task::texts(report.errors@) == kill_errors_spec(ps@, ord, sent@, dry_run, k as int),
        decreases order@.len() - k,
    {
        let p = &ps[order[k]];
        assert(ord[k as int] == order@[k as int] as int);
        let ghost before = crate::task::texts(report.errors@);
        if dry_run {
            report.terminated.push(p.pid);
        } else {
            match &sent[k] {
                Ok(()) => {
                    report.terminated.push(p.pid);
                },
                Err(e) => {
                    if contains_chars(chars_of(e.as_str()).as_slice(), gone.as_slice()) {
                        report.terminated.push(p.pid);
                    } else {
                        let mut line = p.name.clone();
                        crate::text::push_str(&mut line, " [");
                        crate::text::push_decimal(&mut line, p.pid as u64);
                        crate::text::push_str(&mut line, "] : ");
                        crate::text::push_str(&mut line, e.as_str());
                        report.errors.push(line);
                        assert(crate::task::texts(report.errors@) =~= before.push(line@));
                    }
                },
            }
        }
        proof {
            assert(report.terminated@ =~= terminated_spec(ps@, ord, sent@, dry_run, k + 1));
            assert(crate::task::texts(report.errors@) =~= kill_errors_spec(ps@, ord, sent@, dry_run, k + 1));
        }
        k += 1;
    }
    report
}

/// The PIDs, among the first `n`, that are still alive.
pub open spec fn alive_spec(ts: Seq<u32>, alive: Seq<bool>, n: int) -> Seq<u32>
    decreases n,
{
    if n <= 0 {
        Seq::empty()
    } else {
        alive_spec(ts, alive, n - 1) + (if alive[n - 1] {
            seq![ts[n - 1]]
        } else {
            Seq::empty()
        })
    }
}

/// The PIDs, among the first `n`, that are not in `gone`.
pub open spec fn without(ts: Seq<u32>, gone: Seq<u32>, n: int) -> Seq<u32>
    decreases n,
{
    if n <= 0 {
        Seq::empty()
    } else {
        without(ts, gone, n - 1) + (if !gone.contains(ts[n - 1]) {
            seq![ts[n - 1]]
        } else {
            Seq::empty()
        })
    }
}

/// Settles a report once the signalled processes had time to stop: `alive`
/// tells, for each terminated PID in order, whether it still exists.
pub fn settle(report: Killed, alive: &Vec<bool>) -> (r: Killed)
    requires
        alive@.len() == report.terminated@.len(),
    ensures
        r.group == report.group,
        r.signal == report.signal,
        r.bytes == report.bytes,
        r.errors@ == report.errors@,
        r.survived@ == alive_spec(report.terminated@, alive@, alive@.len() as int),
        r.terminated@ == without(report.terminated@, r.survived@, report.terminated@.len() as int),
{
    let ts = &report.terminated;
    let mut survived: Vec<u32> = Vec::new();
    let mut i: usize = 0;
    while i < ts.len()
        invariant
            i <= ts@.len(),
            alive@.len() == ts@.len(),
            survived@ == alive_spec(ts@, alive@, i as int),
        decreases ts@.len() - i,
    {
        if alive[i] {
            survived.push(ts[i]);
        }
        assert(survived@ =~= alive_spec(ts@, alive@, i + 1));
        i += 1;
    }
    let mut kept: Vec<u32> = Vec::new();
    let mut j: usize = 0;
    while j < ts.len()
        invariant
            j <= ts@.len(),
            kept@ == without(ts@, survived@, j as int),
        decreases ts@.len() - j,
    {
        let mut found = false;
        let t = ts[j];
        let mut x: usize = 0;
        while x < survived.len()
            invariant
                x <= survived@.len(),
                found == (exists|y: int| 0 <= y < x && survived@[y] == t),
            decreases survived@.len() - x,
        {
            if survived[x] == t {
                found = true;
            }
            x += 1;
        }
        assert(found == survived@.contains(ts@[j as int]));
        if !found {
            kept.push(ts[j]);
        }
        assert(kept@ =~= without(ts@, survived@, j + 1));
        j += 1;
    }
    Killed {
        group: report.group,
        signal: report.signal,
        bytes: report.bytes,
        terminated: kept,
        survived,
        errors: report.errors,
    }
}

/// Every (PID, parent PID) of the listed groups, in order.
pub open spec fn pid_pairs(gs: Seq<Group>) -> Seq<(u32, u32)>
    decreases gs.len(),
{
    if gs.len() == 0 {
        Seq::empty()
    } else {
        pid_pairs(gs.drop_last()) + gs.last().processes@.map_values(|p: Process| (p.pid, p.ppid))
    }
}

/// The parent recorded last for a PID.
pub open spec fn parent_in(pairs: Seq<(u32, u32)>, pid: u32) -> Option<u32>
    decreases pairs.len(),
{
    if pairs.len() == 0 {
        None
    } else if pairs.last().0 == pid {
        Some(pairs.last().1)
    } else {
        parent_in(pairs.drop_last(), pid)
    }
}

/// Walks up from `current`, at most `fuel` steps, stopping at `launchd`
/// (PID 1 or below), at a loop, or where the parent is unknown.
pub open spec fn ancestors_walk(pairs: Seq<(u32, u32)>, current: u32, seen: Seq<u32>, fuel: nat) -> Seq<u32>
    decreases fuel,
{
    if fuel == 0 {
        seen
    } else {
        match parent_in(pairs, current) {
            None => seen,
            Some(parent) => if parent <= 1 || seen.contains(parent) {
                seen
            } else {
                ancestors_walk(pairs, parent, seen.push(parent), (fuel - 1) as nat)
            },
        }
    }
}

fn parent_lookup(pairs: &Vec<(u32, u32)>, pid: u32) -> (r: Option<u32>)
    ensures
        r == parent_in(pairs@, pid),
{
    let mut i: usize = pairs.len();
    assert(pairs@.take(i as int) =~= pairs@);
    while i > 0
        invariant
            i <= pairs@.len(),
            parent_in(pairs@, pid) == parent_in(pairs@.take(i as int), pid),
        decreases i,
    {
        assert(pairs@.take(i as int).last() == pairs@[i - 1]);
        assert(pairs@.take(i as int).drop_last() =~= pairs@.take(i - 1));
        if pairs[i - 1].0 == pid {
            return Some(pairs[i - 1].1);
        }
        i -= 1;
    }
    None
}

fn contains_u32(v: &Vec<u32>, x: u32) -> (r: bool)
    ensures
        r == v@.contains(x),
{
    let mut i: usize = 0;
    while i < v.len()
        invariant
            i <= v@.len(),
            forall|k: int| 0 <= k < i ==> v@[k] != x,
        decreases v@.len() - i,
    {
        if v[i] == x {
            return true;
        }
        i += 1;
    }
    false
}

/// Ancestors of the process `own`, nearest first, so that the tool never
/// kills itself unknowingly. Each step goes to a PID not seen before, so the
/// walk never needs more steps than there are processes.
pub fn own_ancestors(groups: &Vec<Group>, own: u32) -> (r: Vec<u32>)
    ensures
        r@ == ancestors_walk(pid_pairs(groups@), own, Seq::empty(), (pid_pairs(groups@).len() + 1) as nat),
{
    let mut pairs: Vec<(u32, u32)> = Vec::new();
    let mut g: usize = 0;
    while g < groups.len()
        invariant
            g <= groups@.len(),
            pairs@ == pid_pairs(groups@.take(g as int)),
        decreases groups@.len() - g,
    {
        assert(groups@.take(g + 1).drop_last() =~= groups@.take(g as int));
        let ps = &groups[g].processes;
        let ghost base = pairs@;
        let mut i: usize = 0;
        while i < ps.len()
            invariant
                i <= ps@.len(),
                pairs@ == base + ps@.take(i as int).map_values(|p: Process| (p.pid, p.ppid)),
            decreases ps@.len() - i,
        {
            pairs.push((ps[i].pid, ps[i].ppid));
            assert(ps@.take(i + 1).map_values(|p: Process| (p.pid, p.ppid)) =~= ps@.take(i as int).map_values(
                |p: Process| (p.pid, p.ppid),
            ).push((ps@[i as int].pid, ps@[i as int].ppid)));
            i += 1;
        }
        assert(ps@.take(ps@.len() as int) =~= ps@);
        g += 1;
    }
    assert(groups@.take(groups@.len() as int) =~= groups@);
    let ghost total = (pairs@.len() + 1) as nat;
    let mut ancestors: Vec<u32> = Vec::new();
    let mut current = own;
    let mut fuel: u128 = pairs.len() as u128 + 1;
    while fuel > 0
        invariant
            pairs@ == pid_pairs(groups@),
            total == (pid_pairs(groups@).len() + 1) as nat,
            ancestors_walk(pairs@, own, Seq::empty(), total) == ancestors_walk(pairs@, current, ancestors@, fuel as nat),
        decreases fuel,
    {
        match parent_lookup(&pairs, current) {
            None => {
                return ancestors;
            },
            Some(parent) => {
                if parent <= 1 || contains_u32(&ancestors, parent) {
                    return ancestors;
                }
                ancestors.push(parent);
                current = parent;
            },
        }
        fuel -= 1;
    }
    ancestors
}

/// Whether one of the processes is among the given PIDs.
pub open spec fn holds_any(ps: Seq<Process>, pids: Seq<u32>) -> bool {
    exists|i: int| 0 <= i < ps.len() && pids.contains(#[trigger] ps[i].pid)
}

/// What `kill` may do with the group it found.
#[derive(Debug, Clone)]
pub enum KillGate {
    /// It refuses, with this message.
    Refused(String),
    /// It goes on to the confirmation; `holds_terminal` when the group holds
    /// one of the tool's own ancestors, which the user is warned of.
    Proceed { holds_terminal: bool },
}

/// A macOS component is refused unless `--system` was given; any other
/// group goes on, with a warning when it holds the terminal the tool runs
/// in (`ancestors` is what `own_ancestors` found).
pub fn kill_gate(group: &Group, allow_system: bool, ancestors: &Vec<u32>) -> (r: KillGate)
    ensures
        group.system && !allow_system ==> (r matches KillGate::Refused(m) && m@ == group.name@
            + " est un composant de macOS — ajoutez --system pour l'arrêter quand même."@),
        !(group.system && !allow_system) ==> (r matches KillGate::Proceed { holds_terminal }
            && holds_terminal == holds_any(group.processes@, ancestors@)),
{
    if group.system && !allow_system {
        let mut m = group.name.clone();
        crate::text::push_str(&mut m, " est un composant de macOS — ajoutez --system pour l'arrêter quand même.");
        return KillGate::Refused(m);
    }
    let ps = &group.processes;
    let mut i: usize = 0;
    while i < ps.len()
        invariant
            i <= ps@.len(),
            ps@ == group.processes@,
            !(group.system && !allow_system),
            forall|k: int| 0 <= k < i ==> !ancestors@.contains(#[trigger] ps@[k].pid),
        decreases ps@.len() - i,
    {
        if contains_u32(ancestors, ps[i].pid) {
            assert(ancestors@.contains(ps@[i as int].pid));
            return KillGate::Proceed { holds_terminal: true };
        }
        i += 1;
    }
    KillGate::Proceed { holds_terminal: false }
}

/// Whether a shutdown went through: no survivor and no error, and, in text
/// mode, at least one process stopped.
pub fn kill_succeeded(report: &Killed, json: bool) -> (r: bool)
    ensures
        r == (report.survived@.len() == 0 && report.errors@.len() == 0 && (json || report.terminated@.len() > 0)),
{
    report.survived.len() == 0 && report.errors.len() == 0 && (json || report.terminated.len() > 0)
}

/// Application a process is attached to.
#[derive(Debug, Clone)]
pub struct Anchor {
    pub name: String,
    pub bundle: Option<String>,
    pub system: bool,
}

/// The index recorded last for a PID.
pub open spec fn index_of_pid(ps: Seq<Process>, pid: u32) -> int
    decreases ps.len(),
{
    if ps.len() == 0 {
        -1
    } else if ps.last().pid == pid {
        ps.len() - 1
    } else {
        index_of_pid(ps.drop_last(), pid)
    }
}

pub proof fn lemma_index_of_pid(ps: Seq<Process>, pid: u32)
    ensures
        -1 <= index_of_pid(ps, pid) < ps.len(),
        index_of_pid(ps, pid) >= 0 ==> ps[index_of_pid(ps, pid)].pid == pid,
    decreases ps.len(),
{
    if ps.len() > 0 && ps.last().pid != pid {
        lemma_index_of_pid(ps.drop_last(), pid);
    }
}

/// Walks up the parents of a process that has no bundle of its own, at most
/// `fuel` steps: the first parent with a bundle decides — a third-party one
/// adopts the process, a system one (`launchd`…) never does.
pub open spec fn anchor_walk(ps: Seq<Process>, current: u32, seen: Seq<u32>, fuel: nat) -> Option<(Seq<char>, Seq<char>)>
    decreases fuel,
{
    if fuel == 0 || current <= 1 || seen.contains(current) {
        None
    } else {
        let i = index_of_pid(ps, current);
        if i < 0 {
            None
        } else {
            match bundle_of_spec(ps[i].path@) {
                Some((n, b)) => if !is_system_spec(ps[i].path@) {
                    Some((n, b))
                } else {
                    None
                },
                None => anchor_walk(ps, ps[i].ppid, seen.push(current), (fuel - 1) as nat),
            }
        }
    }
}

/// The application process `i` belongs to: its own bundle, else the first
/// third-party bundle up its parent chain, else itself.
pub open spec fn anchor_spec(ps: Seq<Process>, i: int) -> (Seq<char>, Option<Seq<char>>, bool) {
    let p = ps[i];
    match bundle_of_spec(p.path@) {
        Some((n, b)) => (n, Some(b), is_system_spec(p.path@)),
        None => match anchor_walk(ps, p.ppid, Seq::empty(), (ps.len() + 1) as nat) {
            Some((n, b)) => (n, Some(b), false),
            None => (p.name@, None, is_system_spec(p.path@)),
        },
    }
}

proof fn lemma_walk_finds_third_party(ps: Seq<Process>, current: u32, seen: Seq<u32>, fuel: nat)
    ensures
        anchor_walk(ps, current, seen, fuel) matches Some((n, b)) ==> exists|j: int| 0 <= j < ps.len()
            && bundle_of_spec((#[trigger] ps[j]).path@) == Some((n, b)) && !is_system_spec(ps[j].path@),
    decreases fuel,
{
    if !(fuel == 0 || current <= 1 || seen.contains(current)) {
        lemma_index_of_pid(ps, current);
        let i = index_of_pid(ps, current);
        if i >= 0 && bundle_of_spec(ps[i].path@) is None {
            lemma_walk_finds_third_party(ps, ps[i].ppid, seen.push(current), (fuel - 1) as nat);
        }
    }
}

/// A process is only ever grouped under an application bundle it runs from
/// itself, or under the bundle of a process that is not part of macOS: a
/// system parent (Terminal, Finder, `launchd`…) never absorbs a third-party
/// process, which then stands for itself.
pub proof fn system_parents_never_absorb(ps: Seq<Process>, i: int)
    requires
        0 <= i < ps.len(),
    ensures
        anchor_spec(ps, i).1 matches Some(b) ==> (bundle_of_spec(ps[i].path@) matches Some((n, own)) && own == b)
            || exists|j: int| 0 <= j < ps.len() && bundle_of_spec((#[trigger] ps[j]).path@) == Some((anchor_spec(ps, i).0, b))
                && !is_system_spec(ps[j].path@),
        anchor_spec(ps, i).1 is None ==> anchor_spec(ps, i).0 == ps[i].name@,
{
    lemma_walk_finds_third_party(ps, ps[i].ppid, Seq::empty(), (ps.len() + 1) as nat);
}

/// A process started by a macOS application (its parent runs from a bundle
/// at a system path, Terminal for instance) and with no bundle of its own
/// stands for itself: the walk up stops at that parent instead of looking
/// further.
pub proof fn a_system_parent_stops_the_walk(ps: Seq<Process>, i: int)
    requires
        0 <= i < ps.len(),
        bundle_of_spec(ps[i].path@) is None,
        ps[i].ppid > 1,
        index_of_pid(ps, ps[i].ppid) >= 0,
        bundle_of_spec(ps[index_of_pid(ps, ps[i].ppid)].path@) is Some,
        is_system_spec(ps[index_of_pid(ps, ps[i].ppid)].path@),
    ensures
        anchor_spec(ps, i) == (ps[i].name@, None::<Seq<char>>, is_system_spec(ps[i].path@)),
{
    assert(!Seq::<u32>::empty().contains(ps[i].ppid));
    assert(anchor_walk(ps, ps[i].ppid, Seq::empty(), (ps.len() + 1) as nat) is None);
}

/// A process with no bundle of its own, started by a third-party application
/// (`rust-analyzer` under its editor), is grouped under that application's
/// bundle.
pub proof fn a_third_party_parent_adopts(ps: Seq<Process>, i: int)
    requires
        0 <= i < ps.len(),
        bundle_of_spec(ps[i].path@) is None,
        ps[i].ppid > 1,
        index_of_pid(ps, ps[i].ppid) >= 0,
        bundle_of_spec(ps[index_of_pid(ps, ps[i].ppid)].path@) is Some,
        !is_system_spec(ps[index_of_pid(ps, ps[i].ppid)].path@),
    ensures
        anchor_spec(ps, i) == ({
            let nb = bundle_of_spec(ps[index_of_pid(ps, ps[i].ppid)].path@)->0;
            (nb.0, Some(nb.1), false)
        }),
{
    assert(!Seq::<u32>::empty().contains(ps[i].ppid));
}

/// What an anchor says, as text.
pub open spec fn anchor_view(a: Anchor) -> (Seq<char>, Option<Seq<char>>, bool) {
    (a.name@, match a.bundle {
        Some(b) => Some(b@),
        None => None,
    }, a.system)
}

fn index_lookup(ps: &Vec<Process>, pid: u32) -> (r: Option<usize>)
    ensures
        match r {
            Some(i) => i as int == index_of_pid(ps@, pid),
            None => index_of_pid(ps@, pid) < 0,
        },
{
    let mut i: usize = ps.len();
    assert(ps@.take(i as int) =~= ps@);
    while i > 0
        invariant
            i <= ps@.len(),
            index_of_pid(ps@, pid) == index_of_pid(ps@.take(i as int), pid),
        decreases i,
    {
        assert(ps@.take(i as int).last() == ps@[i - 1]);
        assert(ps@.take(i as int).drop_last() =~= ps@.take(i - 1));
        if ps[i - 1].pid == pid {
            return Some(i - 1);
        }
        i -= 1;
    }
    None
}

/// Attaches a process to its parent application.
///
/// The parent chain is walked as long as the process does not belong to a
/// bundle itself, so `rust-analyzer` ends up under its editor. A system
/// parent never absorbs a third-party process, otherwise everything would
/// end up grouped under `launchd`.
pub fn resolve_group(i: usize, processes: &Vec<Process>) -> (r: Anchor)
    requires
        i < processes@.len(),
    ensures
        anchor_view(r) == anchor_spec(processes@, i as int),
{
    let ps = processes;
    let p = &ps[i];
    match bundle_of(p.path.as_str()) {
        Some((name, bundle)) => {
            return Anchor { name, bundle: Some(bundle), system: is_system(p.path.as_str()) };
        },
        None => {},
    }
    let ghost total = (ps@.len() + 1) as nat;
    let ghost p0 = ps@[i as int];
    let mut current = p.ppid;
    let mut seen: Vec<u32> = Vec::new();
    let mut fuel: u128 = ps.len() as u128 + 1;
    while fuel > 0
        invariant
            total == (ps@.len() + 1) as nat,
            ps@ == processes@,
            i < ps@.len(),
            p0 == ps@[i as int],
            bundle_of_spec(p0.path@) is None,
            anchor_walk(ps@, p0.ppid, Seq::empty(), total) == anchor_walk(ps@, current, seen@, fuel as nat),
        ensures
            anchor_walk(ps@, p0.ppid, Seq::empty(), total) is None,
        decreases fuel,
    {
        if current <= 1 || contains_u32(&seen, current) {
            break;
        }
        proof {
            lemma_index_of_pid(ps@, current);
        }
        let k = match index_lookup(ps, current) {
            Some(k) => k,
            None => break,
        };
        let parent = &ps[k];
        match bundle_of(parent.path.as_str()) {
            Some((name, bundle)) => {
                if !is_system(parent.path.as_str()) {
                    assert(anchor_walk(ps@, current, seen@, fuel as nat) == Some((name@, bundle@)));
                    return Anchor { name, bundle: Some(bundle), system: false };
                }
                break;
            },
            None => {},
        }
        seen.push(current);
        current = parent.ppid;
        fuel -= 1;
    }
    Anchor { name: p.name.clone(), bundle: None, system: is_system(p.path.as_str()) }
}

// ── numbers remembered between two commands ─────────────────────────────────

/// What `serde_json::from_str::<Vec<String>>` reads from a text: the list of
/// strings, or `None` when the text is not a JSON array of strings.
pub uninterp spec fn json_string_list(text: Seq<char>) -> Option<Seq<Seq<char>>>;

/// The JSON text `serde_json::to_string` writes for a list of strings.
pub uninterp spec fn json_of_strings(items: Seq<Seq<char>>) -> Seq<char>;

/// Reads a JSON array of strings with `serde_json::from_str`.
#[verifier::external_body]
fn parse_string_list(text: &str) -> (r: Option<Vec<String>>)
    ensures
        match json_string_list(text@) {
            None => r is None,
            Some(items) => r matches Some(v) && crate::config::string_views(v@) == items,
        },
{
    serde_json::from_str::<Vec<String>>(text).ok()
}

/// Writes a list of strings as JSON with `serde_json::to_string`; reading
/// the text back gives the same strings. Its documentation names two ways to
/// fail, a `Serialize` impl that fails and a map with keys that are not
/// strings, and a list of strings has neither; the writer is a `Vec`, which
/// does not fail either. So a text always comes back.
#[verifier::external_body]
fn string_list_json(items: &Vec<String>) -> (r: Option<String>)
    ensures
        r is Some,
        r matches Some(t) ==> t@ == json_of_strings(crate::config::string_views(items@))
            && json_string_list(t@) == Some(crate::config::string_views(items@)),
{
    serde_json::to_string(items).ok()
}

/// The text that records the groups shown, in order, so that `kill 3` can
/// name the third one later: the JSON list of their names, always written.
pub fn remember(groups: &Vec<Group>) -> (r: Option<String>)
    ensures
        r matches Some(t) && t@ == json_of_strings(group_names(groups@)) && json_string_list(t@)
            == Some(group_names(groups@)),
{
    let mut names: Vec<String> = Vec::new();
    let mut i: usize = 0;
    while i < groups.len()
        invariant
            i <= groups@.len(),
            crate::config::string_views(names@) == group_names(groups@).take(i as int),
        decreases groups@.len() - i,
    {
        let ghost before = names@;
        let n = groups[i].name.clone();
        assert(n@ == group_names(groups@)[i as int]);
        names.push(n);
        assert(crate::config::string_views(names@) =~= crate::config::string_views(before).push(n@));
        assert(group_names(groups@).take(i + 1) =~= group_names(groups@).take(i as int).push(n@));
        assert(crate::config::string_views(names@) =~= group_names(groups@).take(i + 1));
        i += 1;
    }
    assert(group_names(groups@).take(groups@.len() as int) =~= group_names(groups@));
    string_list_json(&names)
}

/// The name shown at a 1-based position by the last listing, read from what
/// `remember` recorded.
pub fn recall(raw: &str, index: usize) -> (r: Option<String>)
    ensures
        match json_string_list(raw@) {
            None => r is None,
            Some(names) => if 1 <= index <= names.len() {
                r matches Some(n) && n@ == names[index - 1]
            } else {
                r is None
            },
        },
{
    let names = match parse_string_list(raw) {
        Some(v) => v,
        None => return None,
    };
    if index == 0 || index > names.len() {
        return None;
    }
    assert(crate::config::string_views(names@)[index - 1] == names@[index - 1]@);
    Some(names[index - 1].clone())
}

/// What `kill 3` names is what the listing showed third: the name recalled
/// at a position of what was remembered is the name of the group shown
/// there.
pub proof fn recall_gives_back_what_was_remembered(groups: Seq<Group>, text: Seq<char>, index: int)
    requires
        text == json_of_strings(group_names(groups)),
        json_string_list(text) == Some(group_names(groups)),
        1 <= index <= groups.len(),
    ensures
        json_string_list(text) matches Some(names) && names[index - 1] == groups[index - 1].name@,
{
}

// ── applications started at login ──────────────────────────────────────────

/// The executable an agent starts, from its `.plist` converted to JSON:
/// `Program`, else the first of `ProgramArguments`.
pub open spec fn agent_program_spec(json: Seq<char>) -> Option<Seq<char>> {
    match crate::task::docker::json_string_field(json, "Program"@, None) {
        None => None,
        Some(Some(p)) => Some(p),
        Some(None) => match crate::task::docker::json_string_field(json, "ProgramArguments"@, Some(0usize)) {
            Some(Some(p)) => Some(p),
            _ => None,
        },
    }
}

/// Reads the executable an agent starts from `plutil -convert json` output.
pub fn agent_program(json: &str) -> (r: Option<String>)
    ensures
        match agent_program_spec(json@) {
            None => r is None,
            Some(p) => r matches Some(s) && s@ == p,
        },
{
    match crate::task::docker::json_field(json, "Program", None) {
        None => None,
        Some(Some(p)) => Some(p),
        Some(None) => match crate::task::docker::json_field(json, "ProgramArguments", Some(0)) {
            Some(Some(p)) => Some(p),
            _ => None,
        },
    }
}

/// The application an executable belongs to: its bundle's name, else its
/// file name.
pub open spec fn program_app(program: Seq<char>) -> Seq<char> {
    match bundle_of_spec(program) {
        Some((n, _)) => n,
        None => file_name_spec(program),
    }
}

/// Labels of the agents, among the first `n`, that start an application
/// of that name: third-party agents whose program is known.
pub open spec fn labels_for(agents: Seq<crate::task::agents::Agent>, programs: Seq<Option<String>>, name: Seq<char>, n: int) -> Seq<Seq<char>>
    decreases n,
{
    if n <= 0 {
        Seq::empty()
    } else {
        labels_for(agents, programs, name, n - 1) + (if !agents[n - 1].apple && programs[n - 1] is Some
            && program_app(programs[n - 1]->0@) == name {
            seq![agents[n - 1].label@]
        } else {
            Seq::empty()
        })
    }
}

/// Whether the entries name distinct applications.
pub open spec fn distinct_names(es: Seq<(String, Vec<String>)>) -> bool {
    forall|i: int, j: int| 0 <= i < j < es.len() ==> (#[trigger] es[i]).0@ != (#[trigger] es[j]).0@
}

fn app_name(program: &str) -> (r: String)
    ensures
        r@ == program_app(program@),
{
    match bundle_of(program) {
        Some((n, _)) => n,
        None => file_name(program),
    }
}

/// Applications started automatically, each with the labels of the agents
/// responsible; `programs[i]` is what agent `i` starts, when known.
pub fn autostart_groups(agents: &Vec<crate::task::agents::Agent>, programs: &Vec<Option<String>>) -> (r: Vec<(String, Vec<String>)>)
    requires
        programs@.len() == agents@.len(),
    ensures
        distinct_names(r@),
        forall|i: int| 0 <= i < r@.len() ==> crate::config::string_views((#[trigger] r@[i]).1@)
            == labels_for(agents@, programs@, r@[i].0@, agents@.len() as int),
        forall|k: int| 0 <= k < agents@.len() && !agents@[k].apple && (#[trigger] programs@[k]) is Some
            ==> exists|i: int| 0 <= i < r@.len() && (#[trigger] r@[i]).0@ == program_app(programs@[k]->0@),
{
    let mut r: Vec<(String, Vec<String>)> = Vec::new();
    let mut k: usize = 0;
    while k < agents.len()
        invariant
            k <= agents@.len(),
            programs@.len() == agents@.len(),
            distinct_names(r@),
            forall|i: int| 0 <= i < r@.len() ==> crate::config::string_views((#[trigger] r@[i]).1@)
                == labels_for(agents@, programs@, r@[i].0@, k as int),
            forall|j: int| 0 <= j < k && !agents@[j].apple && (#[trigger] programs@[j]) is Some
                ==> exists|i: int| 0 <= i < r@.len() && (#[trigger] r@[i]).0@ == program_app(programs@[j]->0@),
        decreases agents@.len() - k,
    {
        let a = &agents[k];
        let ghost r0 = r@;
        if !a.apple {
            match &programs[k] {
                None => {
                    proof {
                        assert forall|i: int| 0 <= i < r@.len() implies crate::config::string_views((#[trigger] r@[i]).1@)
                            == labels_for(agents@, programs@, r@[i].0@, k + 1) by {}
                    }
                },
                Some(program) => {
                    let name = app_name(program.as_str());
                    let nc = chars_of(name.as_str());
                    let mut at: usize = 0;
                    while at < r.len()
                        invariant
                            at <= r@.len(),
                            nc@ == name@,
                            forall|i: int| 0 <= i < at ==> (#[trigger] r@[i]).0@ != name@,
                        ensures
                            at <= r@.len(),
                            forall|i: int| 0 <= i < at ==> (#[trigger] r@[i]).0@ != name@,
                            at < r@.len() ==> r@[at as int].0@ == name@,
                        decreases r@.len() - at,
                    {
                        if chars_eq(chars_of(r[at].0.as_str()).as_slice(), nc.as_slice()) {
                            break;
                        }
                        at += 1;
                    }
                    let ghost old_r = r@;
                    let label = a.label.clone();
                    proof {
                        assert forall|i: int| 0 <= i < old_r.len() && old_r[i].0@ != name@ implies labels_for(
                            agents@, programs@, old_r[i].0@, k + 1) == labels_for(agents@, programs@, old_r[i].0@, k as int) by {}
                        assert(labels_for(agents@, programs@, name@, k + 1) == labels_for(agents@, programs@, name@, k as int).push(label@));
                    }
                    if at < r.len() {
                        let mut entry = r.remove(at);
                        let ghost before_labels = crate::config::string_views(entry.1@);
                        entry.1.push(label);
                        assert(crate::config::string_views(entry.1@) =~= before_labels.push(a.label@));
                        r.insert(at, entry);
                        proof {
                            assert forall|i: int| 0 <= i < r@.len() implies r@[i].0@ == old_r[i].0@ by {
                                if i != at {
                                    assert(r@[i] == old_r[i]);
                                }
                            }
                            assert forall|i: int| 0 <= i < r@.len() implies crate::config::string_views((#[trigger] r@[i]).1@)
                                == labels_for(agents@, programs@, r@[i].0@, k + 1) by {
                                if i != at {
                                    assert(r@[i] == old_r[i]);
                                    assert(old_r[i].0@ != name@);
                                }
                            }
                            assert forall|j: int| 0 <= j < k + 1 && !agents@[j].apple && (#[trigger] programs@[j]) is Some
                                implies exists|i: int| 0 <= i < r@.len() && (#[trigger] r@[i]).0@ == program_app(programs@[j]->0@) by {
                                if j < k {
                                    let i0 = choose|i: int| 0 <= i < old_r.len() && (#[trigger] old_r[i]).0@ == program_app(programs@[j]->0@);
                                    assert(r@[i0].0@ == old_r[i0].0@);
                                } else {
                                    assert(r@[at as int].0@ == name@);
                                }
                            }
                        }
                    } else {
                        let labels = vec![label];
                        assert(crate::config::string_views(labels@) =~= seq![a.label@]);
                        assert(labels_for(agents@, programs@, name@, k as int).len() == 0) by {
                            lemma_labels_for_absent(agents@, programs@, name@, k as int);
                        }
                        r.push((name, labels));
                        proof {
                            assert forall|i: int| 0 <= i < r@.len() implies crate::config::string_views((#[trigger] r@[i]).1@)
                                == labels_for(agents@, programs@, r@[i].0@, k + 1) by {
                                if i < old_r.len() {
                                    assert(r@[i] == old_r[i]);
                                }
                            }
                            assert forall|j: int| 0 <= j < k + 1 && !agents@[j].apple && (#[trigger] programs@[j]) is Some
                                implies exists|i: int| 0 <= i < r@.len() && (#[trigger] r@[i]).0@ == program_app(programs@[j]->0@) by {
                                if j < k {
                                    let i0 = choose|i: int| 0 <= i < old_r.len() && (#[trigger] old_r[i]).0@ == program_app(programs@[j]->0@);
                                    assert(r@[i0] == old_r[i0]);
                                } else {
                                    assert(r@[old_r.len() as int].0@ == name@);
                                }
                            }
                        }
                    }
                },
            }
        }
        if a.apple {
            proof {
                assert forall|i: int| 0 <= i < r@.len() implies crate::config::string_views((#[trigger] r@[i]).1@)
                    == labels_for(agents@, programs@, r@[i].0@, k + 1) by {}
            }
        }
        k += 1;
    }
    r
}

/// No agent among the first `n` starts an application that no entry
/// names yet.
proof fn lemma_labels_for_absent(agents: Seq<crate::task::agents::Agent>, programs: Seq<Option<String>>, name: Seq<char>, n: int)
    requires
        0 <= n <= agents.len(),
        programs.len() == agents.len(),
        forall|j: int| 0 <= j < n && !agents[j].apple && (#[trigger] programs[j]) is Some
            ==> program_app(programs[j]->0@) != name,
    ensures
        labels_for(agents, programs, name, n).len() == 0,
    decreases n,
{
    if n > 0 {
        lemma_labels_for_absent(agents, programs, name, n - 1);
    }
}

// ── sorting by size ────────────────────────────────────────────────────────

/// Whether `order` lists each of `0..n` exactly once.
pub open spec fn is_permutation(order: Seq<usize>, n: int) -> bool {
    &&& order.len() == n
    &&& forall|i: int| 0 <= i < order.len() ==> (#[trigger] order[i]) < n
    &&& forall|i: int, j: int| 0 <= i < j < order.len() ==> order[i] != order[j]
    &&& forall|k: int| 0 <= k < n ==> #[trigger] listed(order, k)
}

/// Whether `k` occurs in `order`.
pub open spec fn listed(order: Seq<usize>, k: int) -> bool {
    exists|i: int| 0 <= i < order.len() && order[i] == k
}

/// Whether the keys, taken in this order, never increase.
pub open spec fn sorted_desc(keys: Seq<u64>, order: Seq<usize>) -> bool {
    forall|a: int, b: int| 0 <= a < b < order.len() ==> keys[order[a] as int] >= keys[order[b] as int]
}

/// Whether equal keys, taken in this order, keep their original order.
pub open spec fn stable(keys: Seq<u64>, order: Seq<usize>) -> bool {
    forall|a: int, b: int| 0 <= a < b < order.len() && keys[order[a] as int] == keys[order[b] as int] ==> order[a] < order[b]
}

/// The positions of the keys, largest first; equal keys keep their order,
/// as a stable sort by decreasing key does.
pub fn sort_desc(keys: &Vec<u64>) -> (r: Vec<usize>)
    ensures
        is_permutation(r@, keys@.len() as int),
        sorted_desc(keys@, r@),
        stable(keys@, r@),
{
    let mut order: Vec<usize> = Vec::new();
    let mut i: usize = 0;
    while i < keys.len()
        invariant
            i <= keys@.len(),
            is_permutation(order@, i as int),
            sorted_desc(keys@, order@),
            stable(keys@, order@),
        decreases keys@.len() - i,
    {
        let mut p: usize = 0;
        while p < order.len() && keys[order[p]] >= keys[i]
            invariant
                p <= order@.len(),
                is_permutation(order@, i as int),
                i < keys@.len(),
                forall|a: int| 0 <= a < p ==> keys@[order@[a] as int] >= keys@[i as int],
            decreases order@.len() - p,
        {
            p += 1;
        }
        let ghost old_order = order@;
        order.insert(p, i);
        proof {
            assert(order@ == old_order.insert(p as int, i));
            assert forall|a: int| 0 <= a < order@.len() implies (#[trigger] order@[a]) < i + 1 by {
                if a < p {
                    assert(order@[a] == old_order[a]);
                } else if a > p {
                    assert(order@[a] == old_order[a - 1]);
                }
            }
            assert forall|a: int, b: int| 0 <= a < b < order@.len() implies order@[a] != order@[b] by {
                if a < p && b < p {
                    assert(order@[a] == old_order[a] && order@[b] == old_order[b]);
                } else if a < p && b == p {
                    assert(order@[a] == old_order[a]);
                } else if a < p && b > p {
                    assert(order@[a] == old_order[a] && order@[b] == old_order[b - 1]);
                } else if a == p {
                    assert(order@[b] == old_order[b - 1]);
                } else {
                    assert(order@[a] == old_order[a - 1] && order@[b] == old_order[b - 1]);
                }
            }
            assert forall|k: int| 0 <= k < i + 1 implies #[trigger] listed(order@, k) by {
                if k == i {
                    assert(order@[p as int] == k);
                } else {
                    assert(listed(old_order, k));
                    let x0 = choose|x: int| 0 <= x < old_order.len() && old_order[x] == k;
                    if x0 < p {
                        assert(order@[x0] == k);
                    } else {
                        assert(order@[x0 + 1] == k);
                    }
                }
            }
            assert forall|a: int, b: int| 0 <= a < b < order@.len() implies keys@[order@[a] as int] >= keys@[order@[b] as int] by {
                if b < p {
                    assert(order@[a] == old_order[a] && order@[b] == old_order[b]);
                } else if b == p {
                    assert(order@[a] == old_order[a]);
                } else if a < p {
                    assert(order@[a] == old_order[a] && order@[b] == old_order[b - 1]);
                    if p < old_order.len() {
                        assert(keys@[old_order[p as int] as int] < keys@[i as int]);
                        assert(keys@[old_order[p as int] as int] >= keys@[old_order[b - 1] as int]);
                    }
                } else if a == p {
                    assert(order@[b] == old_order[b - 1]);
                    assert(keys@[old_order[p as int] as int] < keys@[i as int]);
                    if b - 1 > p {
                        assert(keys@[old_order[p as int] as int] >= keys@[old_order[b - 1] as int]);
                    }
                } else {
                    assert(order@[a] == old_order[a - 1] && order@[b] == old_order[b - 1]);
                }
            }
            assert forall|a: int, b: int| 0 <= a < b < order@.len() && keys@[order@[a] as int] == keys@[order@[b] as int]
                implies order@[a] < order@[b] by {
                if b < p {
                    assert(order@[a] == old_order[a] && order@[b] == old_order[b]);
                } else if b == p {
                    assert(order@[a] == old_order[a]);
                } else if a < p {
                    assert(order@[a] == old_order[a] && order@[b] == old_order[b - 1]);
                } else if a == p {
                    assert(order@[b] == old_order[b - 1]);
                    assert(keys@[old_order[p as int] as int] < keys@[i as int]);
                    if b - 1 > p {
                        assert(keys@[old_order[p as int] as int] >= keys@[old_order[b - 1] as int]);
                    }
                } else {
                    assert(order@[a] == old_order[a - 1] && order@[b] == old_order[b - 1]);
                }
            }
        }
        i += 1;
    }
    order
}

// ── the snapshot ────────────────────────────────────────────────────────────

/// Snapshot of memory at a given moment.
#[derive(Debug, Clone)]
pub struct Snapshot {
    pub memory: Memory,
    /// Percentage of free memory according to `memory_pressure`.
    pub free_percent: Option<u8>,
    pub groups: Vec<Group>,
    /// System groups left out of the list (when they were not asked for).
    pub hidden_groups: usize,
    pub hidden_bytes: u64,
}

/// Sum of the group sizes, held at `u64::MAX`.
pub open spec fn groups_bytes(gs: Seq<Group>) -> u64
    decreases gs.len(),
{
    if gs.len() == 0 {
        0
    } else {
        crate::task::docker::sat_add(groups_bytes(gs.drop_last()), gs.last().bytes)
    }
}

impl Snapshot {
    /// Total memory of the listed groups, held at `u64::MAX`.
    pub fn listed_bytes(&self) -> (r: u64)
        ensures
            r == groups_bytes(self.groups@),
    {
        let mut total: u64 = 0;
        let mut i: usize = 0;
        while i < self.groups.len()
            invariant
                i <= self.groups@.len(),
                total == groups_bytes(self.groups@.take(i as int)),
            decreases self.groups@.len() - i,
        {
            assert(self.groups@.take(i + 1).drop_last() =~= self.groups@.take(i as int));
            total = total.saturating_add(self.groups[i].bytes);
            i += 1;
        }
        assert(self.groups@.take(self.groups@.len() as int) =~= self.groups@);
        total
    }
}

/// The application process `k` belongs to.
pub open spec fn anchor_name(ps: Seq<Process>, k: int) -> Seq<char> {
    anchor_spec(ps, k).0
}

/// The first process of each application, among the first `n`, in order.
pub open spec fn firsts_upto(ps: Seq<Process>, n: int) -> Seq<int>
    decreases n,
{
    if n <= 0 {
        Seq::empty()
    } else {
        let f = firsts_upto(ps, n - 1);
        if exists|j: int| 0 <= j < f.len() && anchor_name(ps, #[trigger] f[j]) == anchor_name(ps, n - 1) {
            f
        } else {
            f.push(n - 1)
        }
    }
}

/// The processes, among the first `n`, that belong to an application.
pub open spec fn members_upto(ps: Seq<Process>, name: Seq<char>, n: int) -> Seq<int>
    decreases n,
{
    if n <= 0 {
        Seq::empty()
    } else {
        members_upto(ps, name, n - 1) + (if anchor_name(ps, n - 1) == name {
            seq![n - 1]
        } else {
            Seq::empty()
        })
    }
}

/// The memory of the processes, among the first `n`, that belong to an
/// application, held at `u64::MAX`.
pub open spec fn bytes_upto(ps: Seq<Process>, name: Seq<char>, n: int) -> u64
    decreases n,
{
    if n <= 0 {
        0
    } else {
        let before = bytes_upto(ps, name, n - 1);
        if anchor_name(ps, n - 1) == name {
            crate::task::docker::sat_add(before, ps[n - 1].bytes)
        } else {
            before
        }
    }
}

/// The labels of the agents that start an application, when any does.
pub open spec fn autostart_of(aut: Seq<(String, Vec<String>)>, name: Seq<char>) -> Option<Seq<Seq<char>>>
    decreases aut.len(),
{
    if aut.len() == 0 {
        None
    } else if aut[0].0@ == name {
        Some(crate::config::string_views(aut[0].1@))
    } else {
        autostart_of(aut.drop_first(), name)
    }
}

/// What a group of a snapshot must be, for the application whose first
/// process is `f`: named after it, with its bundle and origin, its agents,
/// the memory and the processes (largest first) of every process that
/// belongs to it.
#[verifier::opaque]
pub open spec fn group_fits(g: Group, ps: Seq<Process>, aut: Seq<(String, Vec<String>)>, f: int) -> bool {
    let a = anchor_spec(ps, f);
    let members = members_upto(ps, a.0, ps.len() as int);
    &&& g.name@ == a.0
    &&& match g.bundle {
        Some(b) => a.1 == Some(b@),
        None => a.1 is None,
    }
    &&& g.system == a.2
    &&& g.autostart == autostart_of(aut, a.0) is Some
    &&& crate::config::string_views(g.agents@) == match autostart_of(aut, a.0) {
        Some(l) => l,
        None => Seq::empty(),
    }
    &&& g.bytes == bytes_upto(ps, a.0, ps.len() as int)
    &&& g.processes@.len() == members.len()
    &&& (forall|x: int| 0 <= x < g.processes@.len() ==> #[trigger] from_members(g.processes@, ps, members, x))
    &&& (forall|y: int| 0 <= y < members.len() ==> #[trigger] in_group(g.processes@, ps, members, y))
    &&& forall|x: int, z: int| 0 <= x < z < g.processes@.len() ==> g.processes@[x].bytes >= g.processes@[z].bytes
}

/// Whether the `x`th process listed is one of the members.
pub open spec fn from_members(procs: Seq<Process>, ps: Seq<Process>, members: Seq<int>, x: int) -> bool {
    exists|y: int| 0 <= y < members.len() && procs[x] == ps[members[y]]
}

/// Whether the `y`th member is listed.
pub open spec fn in_group(procs: Seq<Process>, ps: Seq<Process>, members: Seq<int>, y: int) -> bool {
    exists|x: int| 0 <= x < procs.len() && procs[x] == ps[members[y]]
}

fn copy_process(p: &Process) -> (r: Process)
    ensures
        r == *p,
{
    Process {
        pid: p.pid,
        ppid: p.ppid,
        user: p.user.clone(),
        name: p.name.clone(),
        path: p.path.clone(),
        bytes: p.bytes,
        cpu: p.cpu.clone(),
        elapsed: p.elapsed.clone(),
        args: match &p.args {
            Some(a) => Some(a.clone()),
            None => None,
        },
    }
}

fn copy_strings(v: &Vec<String>) -> (r: Vec<String>)
    ensures
        r@ == v@,
{
    let mut r: Vec<String> = Vec::new();
    let mut i: usize = 0;
    while i < v.len()
        invariant
            i <= v@.len(),
            r@ == v@.take(i as int),
        decreases v@.len() - i,
    {
        r.push(v[i].clone());
        assert(r@ =~= v@.take(i + 1));
        i += 1;
    }
    assert(v@.take(v@.len() as int) =~= v@);
    r
}

fn autostart_lookup(aut: &Vec<(String, Vec<String>)>, name: &str) -> (r: Option<Vec<String>>)
    ensures
        match autostart_of(aut@, name@) {
            None => r is None,
            Some(l) => r matches Some(v) && crate::config::string_views(v@) == l,
        },
{
    let nc = chars_of(name);
    let mut i: usize = 0;
    assert(aut@.skip(0) =~= aut@);
    while i < aut.len()
        invariant
            i <= aut@.len(),
            nc@ == name@,
            autostart_of(aut@, name@) == autostart_of(aut@.skip(i as int), name@),
        decreases aut@.len() - i,
    {
        assert(aut@.skip(i as int)[0] == aut@[i as int]);
        assert(aut@.skip(i as int).drop_first() =~= aut@.skip(i + 1));
        if chars_eq(chars_of(aut[i].0.as_str()).as_slice(), nc.as_slice()) {
            return Some(copy_strings(&aut[i].1));
        }
        i += 1;
    }
    None
}

fn anchors_of(ps: &Vec<Process>) -> (r: Vec<Anchor>)
    ensures
        r@.len() == ps@.len(),
        forall|k: int| 0 <= k < ps@.len() ==> anchor_view(#[trigger] r@[k]) == anchor_spec(ps@, k),
{
    let mut r: Vec<Anchor> = Vec::new();
    let mut k: usize = 0;
    while k < ps.len()
        invariant
            k <= ps@.len(),
            r@.len() == k,
            forall|x: int| 0 <= x < k ==> anchor_view(#[trigger] r@[x]) == anchor_spec(ps@, x),
        decreases ps@.len() - k,
    {
        r.push(resolve_group(k, ps));
        k += 1;
    }
    r
}

fn same_name(a: &Anchor, b: &Anchor) -> (r: bool)
    ensures
        r == (a.name@ == b.name@),
{
    chars_eq(chars_of(a.name.as_str()).as_slice(), chars_of(b.name.as_str()).as_slice())
}

/// The first process of each application, and each application's memory.
fn first_groups(ps: &Vec<Process>, anchors: &Vec<Anchor>) -> (r: (Vec<usize>, Vec<u64>))
    requires
        anchors@.len() == ps@.len(),
        forall|k: int| 0 <= k < ps@.len() ==> anchor_view(#[trigger] anchors@[k]) == anchor_spec(ps@, k),
    ensures
        as_ints(r.0@) == firsts_upto(ps@, ps@.len() as int),
        r.1@.len() == r.0@.len(),
        forall|j: int| 0 <= j < r.0@.len() ==> (#[trigger] r.0@[j]) < ps@.len(),
        forall|j: int| 0 <= j < r.0@.len() ==> #[trigger] r.1@[j] == bytes_upto(ps@, anchor_name(ps@, r.0@[j] as int), ps@.len() as int),
        forall|a: int, b: int| 0 <= a < b < r.0@.len() ==> anchor_name(ps@, r.0@[a] as int) != anchor_name(ps@, r.0@[b] as int),
{
    let n = ps.len();
    let mut firsts: Vec<usize> = Vec::new();
    let mut bytes: Vec<u64> = Vec::new();
    let mut k: usize = 0;
    while k < n
        invariant
            k <= n,
            n == ps@.len(),
            anchors@.len() == n,
            forall|x: int| 0 <= x < n ==> anchor_view(#[trigger] anchors@[x]) == anchor_spec(ps@, x),
            as_ints(firsts@) == firsts_upto(ps@, k as int),
            bytes@.len() == firsts@.len(),
            forall|j: int| 0 <= j < firsts@.len() ==> (#[trigger] firsts@[j]) < k,
            forall|j: int| 0 <= j < firsts@.len() ==> #[trigger] bytes@[j] == bytes_upto(ps@, anchor_name(ps@, firsts@[j] as int), k as int),
            forall|a: int, b: int| 0 <= a < b < firsts@.len() ==> anchor_name(ps@, firsts@[a] as int) != anchor_name(ps@, firsts@[b] as int),
        decreases n - k,
    {
        let mut j: usize = 0;
        while j < firsts.len()
            invariant
                j <= firsts@.len(),
                k < n,
                n == ps@.len(),
                anchors@.len() == n,
                forall|x: int| 0 <= x < n ==> anchor_view(#[trigger] anchors@[x]) == anchor_spec(ps@, x),
                forall|y: int| 0 <= y < firsts@.len() ==> (#[trigger] firsts@[y]) < k,
                forall|y: int| 0 <= y < j ==> anchor_name(ps@, #[trigger] firsts@[y] as int) != anchor_name(ps@, k as int),
            ensures
                j <= firsts@.len(),
                forall|y: int| 0 <= y < j ==> anchor_name(ps@, #[trigger] firsts@[y] as int) != anchor_name(ps@, k as int),
                j < firsts@.len() ==> anchor_name(ps@, firsts@[j as int] as int) == anchor_name(ps@, k as int),
            decreases firsts@.len() - j,
        {
            assert(anchor_view(anchors@[firsts@[j as int] as int]).0 == anchor_name(ps@, firsts@[j as int] as int));
            assert(anchor_view(anchors@[k as int]).0 == anchor_name(ps@, k as int));
            if same_name(&anchors[firsts[j]], &anchors[k]) {
                break;
            }
            j += 1;
        }
        let ghost old_f = firsts@;
        let ghost old_b = bytes@;
        let ghost nk = anchor_name(ps@, k as int);
        proof {
            assert(as_ints(old_f).len() == old_f.len());
        }
        if j < firsts.len() {
            let updated = bytes[j].saturating_add(ps[k].bytes);
            bytes.set(j, updated);
            proof {
                assert(anchor_name(ps@, as_ints(old_f)[j as int]) == nk);
                assert(firsts_upto(ps@, k + 1) == firsts_upto(ps@, k as int));
                assert forall|y: int| 0 <= y < firsts@.len() implies #[trigger] bytes@[y] == bytes_upto(ps@, anchor_name(ps@, firsts@[y] as int), k + 1) by {
                    if y != j {
                        assert(anchor_name(ps@, firsts@[y] as int) != nk);
                    }
                }
            }
        } else {
            firsts.push(k);
            bytes.push(ps[k].bytes);
            proof {
                assert(!(exists|y: int| 0 <= y < as_ints(old_f).len() && anchor_name(ps@, #[trigger] as_ints(old_f)[y]) == nk)) by {
                    assert forall|y: int| 0 <= y < as_ints(old_f).len() implies anchor_name(ps@, #[trigger] as_ints(old_f)[y]) != nk by {
                        assert(as_ints(old_f)[y] == old_f[y] as int);
                    }
                }
                assert(as_ints(firsts@) =~= as_ints(old_f).push(k as int));
                lemma_firsts_cover(ps@, k as int);
                assert forall|x: int| 0 <= x < k implies #[trigger] anchor_name(ps@, x) != nk by {
                    if anchor_name(ps@, x) == nk {
                        assert(named_in(ps@, firsts_upto(ps@, k as int), anchor_name(ps@, x)));
                        let y = choose|y: int| 0 <= y < as_ints(old_f).len() && anchor_name(ps@, #[trigger] as_ints(old_f)[y]) == anchor_name(ps@, x);
                        assert(as_ints(old_f)[y] == old_f[y] as int);
                    }
                }
                lemma_bytes_zero(ps@, nk, k as int);
                assert forall|y: int| 0 <= y < firsts@.len() implies #[trigger] bytes@[y] == bytes_upto(ps@, anchor_name(ps@, firsts@[y] as int), k + 1) by {
                    if y < old_f.len() {
                        assert(anchor_name(ps@, firsts@[y] as int) != nk);
                    }
                }
            }
        }
        k += 1;
    }
    (firsts, bytes)
}

/// Whether one of the given processes belongs to the application.
pub open spec fn named_in(ps: Seq<Process>, fs: Seq<int>, name: Seq<char>) -> bool {
    exists|y: int| 0 <= y < fs.len() && anchor_name(ps, #[trigger] fs[y]) == name
}

/// Every process among the first `k` has its application among the firsts.
proof fn lemma_firsts_cover(ps: Seq<Process>, k: int)
    requires
        k >= 0,
    ensures
        forall|j: int| 0 <= j < k ==> named_in(ps, firsts_upto(ps, k), #[trigger] anchor_name(ps, j)),
    decreases k,
{
    if k > 0 {
        lemma_firsts_cover(ps, k - 1);
        let f = firsts_upto(ps, k - 1);
        let g = firsts_upto(ps, k);
        assert forall|j: int| 0 <= j < k implies named_in(ps, g, #[trigger] anchor_name(ps, j)) by {
            if j < k - 1 {
                assert(named_in(ps, f, anchor_name(ps, j)));
                let y = choose|y: int| 0 <= y < f.len() && anchor_name(ps, #[trigger] f[y]) == anchor_name(ps, j);
                assert(g[y] == f[y]);
            } else {
                if named_in(ps, f, anchor_name(ps, j)) {
                    let y = choose|y: int| 0 <= y < f.len() && anchor_name(ps, #[trigger] f[y]) == anchor_name(ps, j);
                    assert(g[y] == f[y]);
                } else {
                    assert(g[f.len() as int] == k - 1);
                }
            }
        }
    }
}

/// An application none of whose processes is among the first `k` has no
/// memory counted there.
proof fn lemma_bytes_zero(ps: Seq<Process>, name: Seq<char>, k: int)
    requires
        forall|j: int| 0 <= j < k ==> #[trigger] anchor_name(ps, j) != name,
    ensures
        bytes_upto(ps, name, k) == 0,
    decreases k,
{
    if k > 0 {
        lemma_bytes_zero(ps, name, k - 1);
    }
}

fn members_of(ps: &Vec<Process>, anchors: &Vec<Anchor>, f: usize) -> (r: Vec<usize>)
    requires
        anchors@.len() == ps@.len(),
        f < ps@.len(),
        forall|k: int| 0 <= k < ps@.len() ==> anchor_view(#[trigger] anchors@[k]) == anchor_spec(ps@, k),
    ensures
        as_ints(r@) == members_upto(ps@, anchor_name(ps@, f as int), ps@.len() as int),
        forall|i: int| 0 <= i < r@.len() ==> (#[trigger] r@[i]) < ps@.len(),
{
    let ghost name = anchor_name(ps@, f as int);
    assert(anchor_view(anchors@[f as int]).0 == name);
    let mut r: Vec<usize> = Vec::new();
    let mut k: usize = 0;
    while k < ps.len()
        invariant
            k <= ps@.len(),
            anchors@.len() == ps@.len(),
            f < ps@.len(),
            anchors@[f as int].name@ == name,
            forall|x: int| 0 <= x < ps@.len() ==> anchor_view(#[trigger] anchors@[x]) == anchor_spec(ps@, x),
            as_ints(r@) == members_upto(ps@, name, k as int),
            forall|i: int| 0 <= i < r@.len() ==> (#[trigger] r@[i]) < k,
        decreases ps@.len() - k,
    {
        assert(anchor_view(anchors@[k as int]).0 == anchor_name(ps@, k as int));
        if same_name(&anchors[k], &anchors[f]) {
            r.push(k);
        }
        assert(as_ints(r@) =~= members_upto(ps@, name, k + 1));
        k += 1;
    }
    r
}

/// Builds the group of the application whose first process is `f`.
fn build_group(ps: &Vec<Process>, anchors: &Vec<Anchor>, aut: &Vec<(String, Vec<String>)>, f: usize, bytes: u64) -> (g: Group)
    requires
        anchors@.len() == ps@.len(),
        f < ps@.len(),
        forall|k: int| 0 <= k < ps@.len() ==> anchor_view(#[trigger] anchors@[k]) == anchor_spec(ps@, k),
        bytes == bytes_upto(ps@, anchor_name(ps@, f as int), ps@.len() as int),
    ensures
        group_fits(g, ps@, aut@, f as int),
        g.name@ == anchor_name(ps@, f as int),
        g.bytes == bytes,
        g.system == anchor_spec(ps@, f as int).2,
{
    let a = &anchors[f];
    assert(anchor_view(*a) == anchor_spec(ps@, f as int));
    let members = members_of(ps, anchors, f);
    let mut keys: Vec<u64> = Vec::new();
    let mut i: usize = 0;
    while i < members.len()
        invariant
            i <= members@.len(),
            keys@.len() == i,
            forall|x: int| 0 <= x < members@.len() ==> (#[trigger] members@[x]) < ps@.len(),
            forall|x: int| 0 <= x < i ==> #[trigger] keys@[x] == ps@[members@[x] as int].bytes,
        decreases members@.len() - i,
    {
        keys.push(ps[members[i]].bytes);
        i += 1;
    }
    let order = sort_desc(&keys);
    let mut processes: Vec<Process> = Vec::new();
    let mut t: usize = 0;
    while t < order.len()
        invariant
            t <= order@.len(),
            is_permutation(order@, keys@.len() as int),
            keys@.len() == members@.len(),
            forall|x: int| 0 <= x < members@.len() ==> (#[trigger] members@[x]) < ps@.len(),
            processes@.len() == t,
            forall|x: int| 0 <= x < t ==> #[trigger] processes@[x] == ps@[members@[order@[x] as int] as int],
        decreases order@.len() - t,
    {
        processes.push(copy_process(&ps[members[order[t]]]));
        t += 1;
    }
    let (autostart, agents) = match autostart_lookup(aut, a.name.as_str()) {
        Some(l) => (true, l),
        None => (false, Vec::new()),
    };
    let g = Group {
        name: a.name.clone(),
        bundle: match &a.bundle {
            Some(b) => Some(b.clone()),
            None => None,
        },
        bytes,
        system: a.system,
        autostart,
        agents,
        processes,
    };
    proof {
        if autostart_of(aut@, a.name@) is None {
            assert(crate::config::string_views(g.agents@) =~= Seq::<Seq<char>>::empty());
        }
        lemma_group_fits(g, ps@, aut@, f as int, members@, order@, keys@);
    }
    g
}

/// Whether some listed group came from position `u`.
pub open spec fn covered(origin: Seq<int>, u: int) -> bool {
    exists|i: int| 0 <= i < origin.len() && origin[i] == u
}

/// The system groups among the given firsts, and their memory.
pub open spec fn hidden_spec(ps: Seq<Process>, fs: Seq<int>) -> (nat, u64)
    decreases fs.len(),
{
    if fs.len() == 0 {
        (0, 0)
    } else {
        let h = hidden_spec(ps, fs.drop_last());
        let f = fs.last();
        if anchor_spec(ps, f).2 {
            (h.0 + 1, crate::task::docker::sat_add(h.1, bytes_upto(ps, anchor_name(ps, f), ps.len() as int)))
        } else {
            h
        }
    }
}

/// The groups listed, largest first, and for each the position in `order`
/// it came from.
fn listed_groups(ps: &Vec<Process>, anchors: &Vec<Anchor>, autostart: &Vec<(String, Vec<String>)>, firsts: &Vec<usize>, bytes: &Vec<u64>, order: &Vec<usize>, include_system: bool) -> (r: (Vec<Group>, Ghost<Seq<int>>))
    requires
        anchors@.len() == ps@.len(),
        forall|k: int| 0 <= k < ps@.len() ==> anchor_view(#[trigger] anchors@[k]) == anchor_spec(ps@, k),
        bytes@.len() == firsts@.len(),
        forall|j: int| 0 <= j < firsts@.len() ==> (#[trigger] firsts@[j]) < ps@.len(),
        forall|j: int| 0 <= j < firsts@.len() ==> #[trigger] bytes@[j] == bytes_upto(ps@, anchor_name(ps@, firsts@[j] as int), ps@.len() as int),
        is_permutation(order@, bytes@.len() as int),
    ensures
        ({
            let groups = r.0@;
            let origin = r.1@;
            &&& origin.len() == groups.len()
            &&& forall|i: int| 0 <= i < groups.len() ==> 0 <= #[trigger] origin[i] < order@.len()
            &&& forall|i: int, i2: int| 0 <= i < i2 < groups.len() ==> origin[i] < origin[i2]
            &&& forall|i: int| 0 <= i < groups.len() ==> group_fits(#[trigger] groups[i], ps@, autostart@, firsts@[order@[origin[i]] as int] as int)
                && groups[i].bytes == bytes@[order@[origin[i]] as int]
                && groups[i].name@ == anchor_name(ps@, firsts@[order@[origin[i]] as int] as int)
            &&& forall|u: int| 0 <= u < order@.len() && (include_system || !anchor_spec(ps@, firsts@[order@[u] as int] as int).2) ==> #[trigger] covered(origin, u)
            &&& !include_system ==> forall|i: int| 0 <= i < groups.len() ==> !(#[trigger] groups[i]).system
        }),
{
    let mut groups: Vec<Group> = Vec::new();
    let ghost mut origin: Seq<int> = Seq::empty();
    let mut t: usize = 0;
    while t < order.len()
        invariant
            t <= order@.len(),
            anchors@.len() == ps@.len(),
            forall|k: int| 0 <= k < ps@.len() ==> anchor_view(#[trigger] anchors@[k]) == anchor_spec(ps@, k),
            bytes@.len() == firsts@.len(),
            forall|j: int| 0 <= j < firsts@.len() ==> (#[trigger] firsts@[j]) < ps@.len(),
            forall|j: int| 0 <= j < firsts@.len() ==> #[trigger] bytes@[j] == bytes_upto(ps@, anchor_name(ps@, firsts@[j] as int), ps@.len() as int),
            is_permutation(order@, bytes@.len() as int),
            origin.len() == groups@.len(),
            forall|i: int| 0 <= i < groups@.len() ==> 0 <= #[trigger] origin[i] < t,
            forall|i: int, i2: int| 0 <= i < i2 < groups@.len() ==> origin[i] < origin[i2],
            forall|i: int| 0 <= i < groups@.len() ==> group_fits(#[trigger] groups@[i], ps@, autostart@, firsts@[order@[origin[i]] as int] as int)
                && groups@[i].bytes == bytes@[order@[origin[i]] as int]
                && groups@[i].name@ == anchor_name(ps@, firsts@[order@[origin[i]] as int] as int),
            forall|u: int| 0 <= u < t && (include_system || !anchor_spec(ps@, firsts@[order@[u] as int] as int).2) ==> #[trigger] covered(origin, u),
            !include_system ==> forall|i: int| 0 <= i < groups@.len() ==> !(#[trigger] groups@[i]).system,
        decreases order@.len() - t,
    {
        let j = order[t];
        let f = firsts[j];
        assert(anchor_view(anchors@[f as int]) == anchor_spec(ps@, f as int));
        let ghost old_origin = origin;
        if include_system || !anchors[f].system {
            let g = build_group(ps, anchors, autostart, f, bytes[j]);
            groups.push(g);
            proof {
                origin = origin.push(t as int);
            }
        }
        proof {
            assert forall|u: int| 0 <= u < t + 1 && (include_system || !anchor_spec(ps@, firsts@[order@[u] as int] as int).2) implies #[trigger] covered(origin, u) by {
                if u < t {
                    assert(covered(old_origin, u));
                    let i = choose|i: int| 0 <= i < old_origin.len() && old_origin[i] == u;
                    assert(origin[i] == old_origin[i]);
                } else {
                    assert(origin[old_origin.len() as int] == u);
                }
            }
        }
        t += 1;
    }
    (groups, Ghost(origin))
}

/// The system groups, counted in the order of their first process, with
/// their memory held at `u64::MAX`.
fn hidden_totals(ps: &Vec<Process>, anchors: &Vec<Anchor>, firsts: &Vec<usize>, bytes: &Vec<u64>) -> (r: (usize, u64))
    requires
        anchors@.len() == ps@.len(),
        forall|k: int| 0 <= k < ps@.len() ==> anchor_view(#[trigger] anchors@[k]) == anchor_spec(ps@, k),
        bytes@.len() == firsts@.len(),
        forall|x: int| 0 <= x < firsts@.len() ==> (#[trigger] firsts@[x]) < ps@.len(),
        forall|x: int| 0 <= x < firsts@.len() ==> #[trigger] bytes@[x] == bytes_upto(ps@, anchor_name(ps@, firsts@[x] as int), ps@.len() as int),
    ensures
        r.0 as nat == hidden_spec(ps@, as_ints(firsts@)).0,
        r.1 == hidden_spec(ps@, as_ints(firsts@)).1,
{
    let mut hidden_groups: usize = 0;
    let mut hidden_bytes: u64 = 0;
    let mut j: usize = 0;
    while j < firsts.len()
        invariant
            j <= firsts@.len(),
            anchors@.len() == ps@.len(),
            forall|k: int| 0 <= k < ps@.len() ==> anchor_view(#[trigger] anchors@[k]) == anchor_spec(ps@, k),
            bytes@.len() == firsts@.len(),
            forall|x: int| 0 <= x < firsts@.len() ==> (#[trigger] firsts@[x]) < ps@.len(),
            forall|x: int| 0 <= x < firsts@.len() ==> #[trigger] bytes@[x] == bytes_upto(ps@, anchor_name(ps@, firsts@[x] as int), ps@.len() as int),
            hidden_groups as nat == hidden_spec(ps@, as_ints(firsts@).take(j as int)).0,
            hidden_bytes == hidden_spec(ps@, as_ints(firsts@).take(j as int)).1,
            hidden_groups <= j,
        decreases firsts@.len() - j,
    {
        assert(as_ints(firsts@).take(j + 1).drop_last() =~= as_ints(firsts@).take(j as int));
        assert(anchor_view(anchors@[firsts@[j as int] as int]) == anchor_spec(ps@, firsts@[j as int] as int));
        if anchors[firsts[j]].system {
            hidden_groups = hidden_groups + 1;
            hidden_bytes = hidden_bytes.saturating_add(bytes[j]);
        }
        j += 1;
    }
    assert(as_ints(firsts@).take(firsts@.len() as int) =~= as_ints(firsts@));
    (hidden_groups, hidden_bytes)
}

/// What the listed groups of a snapshot are: each one the group of some
/// application (see `group_fits`), no application twice, largest first, and
/// every application listed unless it belongs to macOS and those were not
/// asked for.
pub open spec fn groups_listed(groups: Seq<Group>, ps: Seq<Process>, aut: Seq<(String, Vec<String>)>, include_system: bool) -> bool {
    let fs = firsts_upto(ps, ps.len() as int);
    &&& forall|i: int| 0 <= i < groups.len() ==> #[trigger] fits_some(groups[i], ps, aut)
    &&& forall|i: int, i2: int| 0 <= i < i2 < groups.len() ==> groups[i].name@ != groups[i2].name@
    &&& forall|i: int, i2: int| 0 <= i < i2 < groups.len() ==> groups[i].bytes >= groups[i2].bytes
    &&& forall|j: int| 0 <= j < fs.len() && (include_system || !anchor_spec(ps, fs[j]).2) ==> #[trigger] name_listed(groups, anchor_name(ps, fs[j]))
    &&& !include_system ==> forall|i: int| 0 <= i < groups.len() ==> !(#[trigger] groups[i]).system
}

/// Whether a group is the group of some application.
pub open spec fn fits_some(g: Group, ps: Seq<Process>, aut: Seq<(String, Vec<String>)>) -> bool {
    let fs = firsts_upto(ps, ps.len() as int);
    exists|j: int| 0 <= j < fs.len() && group_fits(g, ps, aut, fs[j])
}

/// Whether a group of that name is listed.
pub open spec fn name_listed(groups: Seq<Group>, name: Seq<char>) -> bool {
    exists|i: int| 0 <= i < groups.len() && groups[i].name@ == name
}

/// Builds the current snapshot from the running processes and the
/// applications started at login.
///
/// Each application is one group, listed largest first; its processes are
/// listed largest first too. Without `include_system`, the groups that
/// belong to macOS are left out and only counted.
pub fn snapshot(processes: &Vec<Process>, autostart: &Vec<(String, Vec<String>)>, include_system: bool, memory: Memory, free_percent: Option<u8>) -> (r: Snapshot)
    ensures
        r.memory == memory,
        r.free_percent == free_percent,
        groups_listed(r.groups@, processes@, autostart@, include_system),
        include_system ==> r.hidden_groups == 0 && r.hidden_bytes == 0,
        !include_system ==> r.hidden_groups == hidden_spec(processes@, firsts_upto(processes@, processes@.len() as int)).0
            && r.hidden_bytes == hidden_spec(processes@, firsts_upto(processes@, processes@.len() as int)).1,
{
    let ps = processes;
    let anchors = anchors_of(ps);
    let (firsts, bytes) = first_groups(ps, &anchors);
    let order = sort_desc(&bytes);
    let (groups, origin) = listed_groups(ps, &anchors, autostart, &firsts, &bytes, &order, include_system);
    let (hidden_groups, hidden_bytes) = if include_system {
        (0, 0)
    } else {
        hidden_totals(ps, &anchors, &firsts, &bytes)
    };
    proof {
        lemma_snapshot(processes@, autostart@, include_system, firsts@, bytes@, order@, groups@, origin@);
    }
    Snapshot { memory, free_percent, groups, hidden_groups, hidden_bytes }
}

/// The positions, among the first `n` groups, of those holding at least
/// `min` bytes, in order.
pub open spec fn above_spec(gs: Seq<Group>, min: u64, n: int) -> Seq<int>
    decreases n,
{
    if n <= 0 {
        Seq::empty()
    } else {
        above_spec(gs, min, n - 1) + (if gs[n - 1].bytes >= min {
            seq![n - 1]
        } else {
            Seq::empty()
        })
    }
}

/// The groups `ram --min` lists: those holding at least `min` bytes, in the
/// order of the snapshot, by position.
pub fn above(groups: &Vec<Group>, min: u64) -> (r: Vec<usize>)
    ensures
        as_ints(r@) == above_spec(groups@, min, groups@.len() as int),
        forall|i: int| 0 <= i < r@.len() ==> (#[trigger] r@[i]) < groups@.len(),
{
    let mut r: Vec<usize> = Vec::new();
    let mut i: usize = 0;
    while i < groups.len()
        invariant
            i <= groups@.len(),
            as_ints(r@) == above_spec(groups@, min, i as int),
            forall|k: int| 0 <= k < r@.len() ==> (#[trigger] r@[k]) < i,
        decreases groups@.len() - i,
    {
        if groups[i].bytes >= min {
            r.push(i);
        }
        assert(as_ints(r@) =~= above_spec(groups@, min, i + 1));
        i += 1;
    }
    r
}

proof fn lemma_snapshot(ps: Seq<Process>, aut: Seq<(String, Vec<String>)>, include_system: bool, firsts: Seq<usize>, bytes: Seq<u64>, order: Seq<usize>, groups: Seq<Group>, origin: Seq<int>)
    requires
        as_ints(firsts) == firsts_upto(ps, ps.len() as int),
        bytes.len() == firsts.len(),
        forall|a: int, b: int| 0 <= a < b < firsts.len() ==> anchor_name(ps, firsts[a] as int) != anchor_name(ps, firsts[b] as int),
        is_permutation(order, bytes.len() as int),
        sorted_desc(bytes, order),
        origin.len() == groups.len(),
        forall|i: int| 0 <= i < groups.len() ==> 0 <= #[trigger] origin[i] < order.len(),
        forall|i: int, i2: int| 0 <= i < i2 < groups.len() ==> origin[i] < origin[i2],
        forall|i: int| 0 <= i < groups.len() ==> group_fits(#[trigger] groups[i], ps, aut, firsts[order[origin[i]] as int] as int)
            && groups[i].bytes == bytes[order[origin[i]] as int]
            && groups[i].name@ == anchor_name(ps, firsts[order[origin[i]] as int] as int),
        forall|u: int| 0 <= u < order.len() && (include_system || !anchor_spec(ps, firsts[order[u] as int] as int).2) ==> #[trigger] covered(origin, u),
        !include_system ==> forall|i: int| 0 <= i < groups.len() ==> !(#[trigger] groups[i]).system,
    ensures
        groups_listed(groups, ps, aut, include_system),
{
    let fs = firsts_upto(ps, ps.len() as int);
    assert forall|i: int| 0 <= i < groups.len() implies #[trigger] fits_some(groups[i], ps, aut) by {
        let j = order[origin[i]] as int;
        assert(fs[j] == firsts[j] as int);
        assert(0 <= j < fs.len() && group_fits(groups[i], ps, aut, fs[j]));
    }
    assert forall|i: int, i2: int| 0 <= i < i2 < groups.len() implies groups[i].name@ != groups[i2].name@ by {
        let a = order[origin[i]] as int;
        let b = order[origin[i2]] as int;
        assert(a != b);
    }
    assert forall|i: int, i2: int| 0 <= i < i2 < groups.len() implies groups[i].bytes >= groups[i2].bytes by {
        assert(bytes[order[origin[i]] as int] >= bytes[order[origin[i2]] as int]);
    }
    assert forall|j: int| 0 <= j < fs.len() && (include_system || !anchor_spec(ps, fs[j]).2) implies #[trigger] name_listed(groups, anchor_name(ps, fs[j])) by {
        assert(listed(order, j));
        let u = choose|u: int| 0 <= u < order.len() && order[u] == j;
        assert(fs[j] == firsts[j] as int);
        assert(covered(origin, u));
        let i = choose|i: int| 0 <= i < origin.len() && origin[i] == u;
        assert(groups[i].name@ == anchor_name(ps, firsts[order[origin[i]] as int] as int));
    }
    assert(groups_listed(groups, ps, aut, include_system));
}

proof fn lemma_group_fits(g: Group, ps: Seq<Process>, aut: Seq<(String, Vec<String>)>, f: int, members: Seq<usize>, order: Seq<usize>, keys: Seq<u64>)
    requires
        0 <= f < ps.len(),
        as_ints(members) == members_upto(ps, anchor_spec(ps, f).0, ps.len() as int),
        forall|x: int| 0 <= x < members.len() ==> (#[trigger] members[x]) < ps.len(),
        keys.len() == members.len(),
        forall|x: int| 0 <= x < keys.len() ==> #[trigger] keys[x] == ps[members[x] as int].bytes,
        is_permutation(order, keys.len() as int),
        sorted_desc(keys, order),
        g.processes@.len() == order.len(),
        forall|x: int| 0 <= x < order.len() ==> #[trigger] g.processes@[x] == ps[members[order[x] as int] as int],
        g.name@ == anchor_spec(ps, f).0,
        match g.bundle {
            Some(b) => anchor_spec(ps, f).1 == Some(b@),
            None => anchor_spec(ps, f).1 is None,
        },
        g.system == anchor_spec(ps, f).2,
        g.autostart == autostart_of(aut, anchor_spec(ps, f).0) is Some,
        crate::config::string_views(g.agents@) == match autostart_of(aut, anchor_spec(ps, f).0) {
            Some(l) => l,
            None => Seq::empty(),
        },
        g.bytes == bytes_upto(ps, anchor_spec(ps, f).0, ps.len() as int),
    ensures
        group_fits(g, ps, aut, f),
{
    reveal(group_fits);
    let ms = members_upto(ps, anchor_spec(ps, f).0, ps.len() as int);
    assert forall|x: int| 0 <= x < g.processes@.len() implies #[trigger] from_members(g.processes@, ps, ms, x) by {
        let y = order[x] as int;
        assert(ms[y] == members[y] as int);
    }
    assert forall|y: int| 0 <= y < ms.len() implies #[trigger] in_group(g.processes@, ps, ms, y) by {
        assert(listed(order, y));
        let x = choose|x: int| 0 <= x < order.len() && order[x] == y;
        assert(ms[y] == members[y] as int);
        assert(g.processes@[x] == ps[members[order[x] as int] as int]);
    }
    assert forall|x: int, z: int| 0 <= x < z < g.processes@.len() implies g.processes@[x].bytes >= g.processes@[z].bytes by {
        assert(keys[order[x] as int] >= keys[order[z] as int]);
    }
}
} // verus!
