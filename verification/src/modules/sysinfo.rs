//! The machine summary of the first generation.

use vstd::prelude::*;
use crate::modules::utils::{format_size, format_size_spec};
use crate::sys::machine::{uptime, uptime_spec};
use crate::task::texts;
use crate::text::{
    chars_of, find_sub, has_prefix, has_suffix, lines, lines_of, parse_u64, parse_u64_spec, push_chars, push_str,
    split_once, split_once_chars, string_of, trim, trim_chars, views, words, words_of, contains_sub,
};

verus! {

/// What the summary is made from: what each command printed (none when it
/// could not be run or failed), the sizes of the three cleanable folders,
/// and the names of the files in the three agent folders.
#[derive(Debug, Clone)]
pub struct Readings {
    pub sw_vers: Option<String>,
    pub cpu_brand: Option<String>,
    pub ncpu: Option<String>,
    pub memsize: Option<String>,
    pub pagesize: Option<String>,
    pub vm_stat: Option<String>,
    pub df: Option<String>,
    pub uptime: Option<String>,
    pub cache_bytes: u64,
    pub trash_bytes: u64,
    pub logs_bytes: u64,
    pub agent_files: Vec<String>,
}

/// What lies between the first and the second separator of a line, or after
/// the first when there is no second; nothing without a first.
pub open spec fn second_part(line: Seq<char>, c: char) -> Seq<char> {
    match split_once(line, c) {
        None => Seq::empty(),
        Some((_, rest)) => match split_once(rest, c) {
            None => rest,
            Some((part, _)) => part,
        },
    }
}

fn second_part_of(line: &[char], c: char) -> (r: Vec<char>)
    ensures
        r@ == second_part(line@, c),
{
    match split_once_chars(line, c) {
        None => Vec::new(),
        Some((_, rest)) => match split_once_chars(rest.as_slice(), c) {
            None => rest,
            Some((part, _)) => part,
        },
    }
}

/// The value of the last line starting with `key`, trimmed; empty if none.
pub open spec fn sw_value(ls: Seq<Seq<char>>, key: Seq<char>) -> Seq<char>
    decreases ls.len(),
{
    if ls.len() == 0 {
        Seq::empty()
    } else if has_prefix(ls.last(), key) {
        trim(second_part(ls.last(), ':'))
    } else {
        sw_value(ls.drop_last(), key)
    }
}

/// The operating-system line: `OS: macOS 14.5`, when a name was read.
pub open spec fn os_lines(sw_vers: Option<Seq<char>>) -> Seq<Seq<char>> {
    match sw_vers {
        None => Seq::empty(),
        Some(t) => {
            let name = sw_value(lines(t), "ProductName"@);
            let version = sw_value(lines(t), "ProductVersion"@);
            if name.len() > 0 {
                seq!["OS: "@ + name + " "@ + version]
            } else {
                Seq::empty()
            }
        },
    }
}

/// A number with all its trailing dots taken off.
pub open spec fn without_dots(s: Seq<char>) -> Seq<char>
    decreases s.len(),
{
    if s.len() > 0 && s.last() == '.' {
        without_dots(s.drop_last())
    } else {
        s
    }
}

/// The count a `vm_stat` line gives, 0 when it gives none.
pub open spec fn vm_value(line: Seq<char>) -> u64 {
    match parse_u64_spec(without_dots(trim(second_part(line, ':')))) {
        Some(v) => v,
        None => 0,
    }
}

/// The bytes of the free, active, inactive, wired and compressed pages, each
/// from the last line naming it, counted in pages of `page` bytes (held at
/// the largest `u64`).
pub open spec fn vm_totals(ls: Seq<Seq<char>>, page: u64) -> (u64, u64, u64, u64, u64)
    decreases ls.len(),
{
    if ls.len() == 0 {
        (0, 0, 0, 0, 0)
    } else {
        let a = vm_totals(ls.drop_last(), page);
        let l = ls.last();
        let v = crate::sys::machine::sat_mul(vm_value(l), page);
        if has_prefix(l, "Pages free"@) {
            (v, a.1, a.2, a.3, a.4)
        } else if has_prefix(l, "Pages active"@) {
            (a.0, v, a.2, a.3, a.4)
        } else if has_prefix(l, "Pages inactive"@) {
            (a.0, a.1, v, a.3, a.4)
        } else if has_prefix(l, "Pages wired"@) {
            (a.0, a.1, a.2, v, a.4)
        } else if contains_sub(l, "compressor"@) {
            (a.0, a.1, a.2, a.3, v)
        } else {
            a
        }
    }
}

/// The page size read, 16384 when none was.
pub open spec fn page_of(pagesize: Option<Seq<char>>) -> u64 {
    match pagesize {
        Some(p) => match parse_u64_spec(p) {
            Some(v) => v,
            None => 16384,
        },
        None => 16384,
    }
}

/// `a + b`, held at the largest `u64`.
pub open spec fn sat(a: u64, b: u64) -> u64 {
    crate::task::docker::sat_add(a, b)
}

/// The memory line: used (active, wired and compressed), free and inactive.
pub open spec fn memory_line(vm_stat: Seq<char>, page: u64) -> Seq<char> {
    let t = vm_totals(lines(vm_stat), page);
    "  Utilisée: "@ + format_size_spec(sat(sat(t.1, t.3), t.4) as nat) + " | Libre: "@ + format_size_spec(t.0 as nat)
        + " | Inactive: "@ + format_size_spec(t.2 as nat)
}

/// The disk line, from the second line of `df -H /`, when it has five fields.
pub open spec fn disk_lines(df: Option<Seq<char>>) -> Seq<Seq<char>> {
    match df {
        None => Seq::empty(),
        Some(t) => {
            let ls = lines(t);
            if ls.len() >= 2 && words(ls[1]).len() >= 5 {
                let p = words(ls[1]);
                seq!["Disque: "@ + p[1] + " total | "@ + p[2] + " utilisé | "@ + p[3] + " libre ("@ + p[4] + ")"@]
            } else {
                Seq::empty()
            }
        },
    }
}

/// The uptime line, when `uptime` printed an `up `.
pub open spec fn uptime_lines(up: Option<Seq<char>>) -> Seq<Seq<char>> {
    match up {
        None => Seq::empty(),
        Some(t) => if find_sub(trim(t), "up "@) < 0 {
            Seq::empty()
        } else {
            seq!["Uptime: "@ + uptime_spec(trim(t))]
        },
    }
}

/// How many of the files are agent definitions of Apple, and of others.
pub open spec fn agent_counts(files: Seq<Seq<char>>) -> (nat, nat)
    decreases files.len(),
{
    if files.len() == 0 {
        (0, 0)
    } else {
        let a = agent_counts(files.drop_last());
        let f = files.last();
        if !has_suffix(f, ".plist"@) {
            a
        } else if has_prefix(f, "com.apple."@) {
            (a.0 + 1, a.1)
        } else {
            (a.0, a.1 + 1)
        }
    }
}

/// An optional text, as a plain value.
pub open spec fn opt(o: Option<String>) -> Option<Seq<char>> {
    match o {
        Some(x) => Some(x@),
        None => None,
    }
}

/// The processor line.
pub open spec fn cpu_lines(c: Option<Seq<char>>) -> Seq<Seq<char>> {
    match c {
        Some(c) => seq!["CPU: "@ + trim(c)],
        None => Seq::empty(),
    }
}

/// The line with the number of cores.
pub open spec fn cores_lines(n: Option<Seq<char>>) -> Seq<Seq<char>> {
    match n {
        Some(n) => seq!["  Coeurs: "@ + trim(n)],
        None => Seq::empty(),
    }
}

/// The total memory line, when `hw.memsize` is a number.
pub open spec fn ram_lines(m: Option<Seq<char>>) -> Seq<Seq<char>> {
    match m {
        Some(m) => match parse_u64_spec(trim(m)) {
            Some(b) => seq!["RAM: "@ + format_size_spec(b as nat) + " totale"@],
            None => Seq::empty(),
        },
        None => Seq::empty(),
    }
}

/// The memory use line, when `vm_stat` answered.
pub open spec fn memory_lines(v: Option<Seq<char>>, pagesize: Option<Seq<char>>) -> Seq<Seq<char>> {
    match v {
        Some(v) => seq![memory_line(v, page_of(match pagesize { Some(p) => Some(trim(p)), None => None }))],
        None => Seq::empty(),
    }
}

/// The closing lines: what could be cleaned, and the startup agents.
pub open spec fn summary_lines(cache: u64, trash: u64, logs: u64, files: Seq<Seq<char>>) -> Seq<Seq<char>> {
    let counts = agent_counts(files);
    seq![
        Seq::empty(),
        "── Résumé nettoyage ──"@,
        "Caches: "@ + format_size_spec(cache as nat) + " | Corbeille: "@ + format_size_spec(trash as nat)
            + " | Logs: "@ + format_size_spec(logs as nat),
        "Espace récupérable: "@ + format_size_spec(sat(sat(cache, trash), logs) as nat),
        "Agents: "@ + crate::text::decimal(counts.0) + " Apple, "@ + crate::text::decimal(counts.1) + " tiers"@,
    ]
}

/// The whole summary, line by line.
pub open spec fn system_info_spec(r: Readings) -> Seq<Seq<char>> {
    os_lines(opt(r.sw_vers)) + cpu_lines(opt(r.cpu_brand)) + cores_lines(opt(r.ncpu)) + ram_lines(opt(r.memsize))
        + memory_lines(opt(r.vm_stat), opt(r.pagesize)) + disk_lines(opt(r.df)) + uptime_lines(opt(r.uptime))
        + summary_lines(r.cache_bytes, r.trash_bytes, r.logs_bytes, texts(r.agent_files@))
}

fn push_line(log: &mut Vec<String>, line: String)
    ensures
        texts(final(log)@) == texts(old(log)@).push(line@),
{
    let ghost before = texts(log@);
    log.push(line);
    assert(texts(log@) =~= before.push(line@));
}

fn text(a: &str) -> (r: String)
    ensures
        r@ == a@,
{
    let mut r = String::new();
    push_str(&mut r, a);
    r
}

fn trimmed(s: &str) -> (r: Vec<char>)
    ensures
        r@ == trim(s@),
{
    trim_chars(chars_of(s).as_slice())
}

fn os_lines_of(t: &str) -> (r: Vec<String>)
    ensures
        texts(r@) == os_lines(Some(t@)),
{
    let ls = lines_of(chars_of(t).as_slice());
    let mut name: Vec<char> = Vec::new();
    let mut version: Vec<char> = Vec::new();
    let mut i: usize = 0;
    let name_key = chars_of("ProductName");
    let version_key = chars_of("ProductVersion");
    while i < ls.len()
        invariant
            i <= ls@.len(),
            views(ls@) == lines(t@),
            name_key@ == "ProductName"@,
            version_key@ == "ProductVersion"@,
            name@ == sw_value(views(ls@).take(i as int), "ProductName"@),
            version@ == sw_value(views(ls@).take(i as int), "ProductVersion"@),
        decreases ls@.len() - i,
    {
        assert(views(ls@).take(i + 1).drop_last() =~= views(ls@).take(i as int));
        if crate::text::starts_with(ls[i].as_slice(), name_key.as_slice()) {
            name = trim_chars(second_part_of(ls[i].as_slice(), ':').as_slice());
        }
        if crate::text::starts_with(ls[i].as_slice(), version_key.as_slice()) {
            version = trim_chars(second_part_of(ls[i].as_slice(), ':').as_slice());
        }
        i += 1;
    }
    assert(views(ls@).take(ls@.len() as int) =~= views(ls@));
    let mut r: Vec<String> = Vec::new();
    if name.len() > 0 {
        let mut line = text("OS: ");
        push_chars(&mut line, name.as_slice());
        push_str(&mut line, " ");
        push_chars(&mut line, version.as_slice());
        push_line(&mut r, line);
    }
    assert(texts(r@) =~= os_lines(Some(t@)));
    r
}

fn without_dots_of(s: &Vec<char>) -> (r: Vec<char>)
    ensures
        r@ == without_dots(s@),
{
    let mut n: usize = s.len();
    assert(s@.take(n as int) =~= s@);
    while n > 0 && s[n - 1] == '.'
        invariant
            n <= s@.len(),
            without_dots(s@) == without_dots(s@.take(n as int)),
        decreases n,
    {
        assert(s@.take(n as int).drop_last() =~= s@.take(n - 1));
        n -= 1;
    }
    crate::text::slice_to_vec(s.as_slice(), 0, n)
}

fn vm_value_of(line: &Vec<char>) -> (r: u64)
    ensures
        r == vm_value(line@),
{
    let v = without_dots_of(&trim_chars(second_part_of(line.as_slice(), ':').as_slice()));
    match parse_u64(v.as_slice()) {
        Some(x) => x,
        None => 0,
    }
}

fn sat_mul(a: u64, b: u64) -> (r: u64)
    ensures
        r == crate::sys::machine::sat_mul(a, b),
{
    if b == 0 || a <= u64::MAX / b {
        proof {
            if b > 0 {
                assert(a * b <= u64::MAX) by (nonlinear_arith)
                    requires a <= u64::MAX / b, b > 0;
            }
        }
        a * b
    } else {
        proof {
            assert(a * b > u64::MAX) by (nonlinear_arith)
                requires a > u64::MAX / b, b > 0;
        }
        u64::MAX
    }
}

fn memory_line_of(v: &str, page: u64) -> (r: String)
    ensures
        r@ == memory_line(v@, page),
{
    let ls = lines_of(chars_of(v).as_slice());
    let mut t: (u64, u64, u64, u64, u64) = (0, 0, 0, 0, 0);
    let mut i: usize = 0;
    let free = chars_of("Pages free");
    let active = chars_of("Pages active");
    let inactive = chars_of("Pages inactive");
    let wired = chars_of("Pages wired");
    let compressor = chars_of("compressor");
    while i < ls.len()
        invariant
            i <= ls@.len(),
            views(ls@) == lines(v@),
            free@ == "Pages free"@,
            active@ == "Pages active"@,
            inactive@ == "Pages inactive"@,
            wired@ == "Pages wired"@,
            compressor@ == "compressor"@,
            t == vm_totals(views(ls@).take(i as int), page),
        decreases ls@.len() - i,
    {
        assert(views(ls@).take(i + 1).drop_last() =~= views(ls@).take(i as int));
        let l = &ls[i];
        let x = sat_mul(vm_value_of(l), page);
        if crate::text::starts_with(l.as_slice(), free.as_slice()) {
            t = (x, t.1, t.2, t.3, t.4);
        } else if crate::text::starts_with(l.as_slice(), active.as_slice()) {
            t = (t.0, x, t.2, t.3, t.4);
        } else if crate::text::starts_with(l.as_slice(), inactive.as_slice()) {
            t = (t.0, t.1, x, t.3, t.4);
        } else if crate::text::starts_with(l.as_slice(), wired.as_slice()) {
            t = (t.0, t.1, t.2, x, t.4);
        } else if crate::text::contains_chars(l.as_slice(), compressor.as_slice()) {
            t = (t.0, t.1, t.2, t.3, x);
        }
        i += 1;
    }
    assert(views(ls@).take(ls@.len() as int) =~= views(ls@));
    let used = t.1.saturating_add(t.3).saturating_add(t.4);
    let mut line = text("  Utilisée: ");
    push_str(&mut line, format_size(used).as_str());
    push_str(&mut line, " | Libre: ");
    push_str(&mut line, format_size(t.0).as_str());
    push_str(&mut line, " | Inactive: ");
    push_str(&mut line, format_size(t.2).as_str());
    line
}

fn disk_lines_of(t: &str) -> (r: Vec<String>)
    ensures
        texts(r@) == disk_lines(Some(t@)),
{
    let ls = lines_of(chars_of(t).as_slice());
    let mut r: Vec<String> = Vec::new();
    if ls.len() >= 2 {
        let p = words_of(ls[1].as_slice());
        if p.len() >= 5 {
            let mut line = text("Disque: ");
            push_chars(&mut line, p[1].as_slice());
            push_str(&mut line, " total | ");
            push_chars(&mut line, p[2].as_slice());
            push_str(&mut line, " utilisé | ");
            push_chars(&mut line, p[3].as_slice());
            push_str(&mut line, " libre (");
            push_chars(&mut line, p[4].as_slice());
            push_str(&mut line, ")");
            push_line(&mut r, line);
        }
    }
    assert(texts(r@) =~= disk_lines(Some(t@)));
    r
}

fn count_agents(files: &Vec<String>) -> (r: (u64, u64))
    ensures
        r.0 as nat == agent_counts(texts(files@)).0,
        r.1 as nat == agent_counts(texts(files@)).1,
{
    let mut apple: u64 = 0;
    let mut others: u64 = 0;
    let mut i: usize = 0;
    let plist = chars_of(".plist");
    let prefix = chars_of("com.apple.");
    while i < files.len()
        invariant
            i <= files@.len(),
            plist@ == ".plist"@,
            prefix@ == "com.apple."@,
            apple as nat == agent_counts(texts(files@).take(i as int)).0,
            others as nat == agent_counts(texts(files@).take(i as int)).1,
            apple + others <= i,
        decreases files@.len() - i,
    {
        assert(texts(files@).take(i + 1).drop_last() =~= texts(files@).take(i as int));
        let f = chars_of(files[i].as_str());
        if crate::text::ends_with(f.as_slice(), plist.as_slice()) {
            if crate::text::starts_with(f.as_slice(), prefix.as_slice()) {
                apple += 1;
            } else {
                others += 1;
            }
        }
        i += 1;
    }
    assert(texts(files@).take(files@.len() as int) =~= texts(files@));
    (apple, others)
}

fn append(log: &mut Vec<String>, more: Vec<String>)
    ensures
        texts(final(log)@) == texts(old(log)@) + texts(more@),
{
    let ghost a = texts(log@);
    let ghost b = texts(more@);
    let mut more = more;
    log.append(&mut more);
    assert(texts(log@) =~= a + b);
}

fn cpu_lines_of(c: &Option<String>) -> (r: Vec<String>)
    ensures
        texts(r@) == cpu_lines(opt(*c)),
{
    let mut r: Vec<String> = Vec::new();
    match c {
        Some(c) => {
            let mut line = text("CPU: ");
            push_chars(&mut line, trimmed(c.as_str()).as_slice());
            push_line(&mut r, line);
        },
        None => {},
    }
    assert(texts(r@) =~= cpu_lines(opt(*c)));
    r
}

fn cores_lines_of(n: &Option<String>) -> (r: Vec<String>)
    ensures
        texts(r@) == cores_lines(opt(*n)),
{
    let mut r: Vec<String> = Vec::new();
    match n {
        Some(n) => {
            let mut line = text("  Coeurs: ");
            push_chars(&mut line, trimmed(n.as_str()).as_slice());
            push_line(&mut r, line);
        },
        None => {},
    }
    assert(texts(r@) =~= cores_lines(opt(*n)));
    r
}

fn ram_lines_of(m: &Option<String>) -> (r: Vec<String>)
    ensures
        texts(r@) == ram_lines(opt(*m)),
{
    let mut r: Vec<String> = Vec::new();
    match m {
        Some(m) => match parse_u64(trimmed(m.as_str()).as_slice()) {
            Some(b) => {
                let mut line = text("RAM: ");
                push_str(&mut line, format_size(b).as_str());
                push_str(&mut line, " totale");
                push_line(&mut r, line);
            },
            None => {},
        },
        None => {},
    }
    assert(texts(r@) =~= ram_lines(opt(*m)));
    r
}

fn memory_lines_of(v: &Option<String>, pagesize: &Option<String>) -> (r: Vec<String>)
    ensures
        texts(r@) == memory_lines(opt(*v), opt(*pagesize)),
{
    let mut r: Vec<String> = Vec::new();
    match v {
        Some(v) => {
            let page = match pagesize {
                Some(p) => match parse_u64(trimmed(p.as_str()).as_slice()) {
                    Some(x) => x,
                    None => 16384,
                },
                None => 16384,
            };
            push_line(&mut r, memory_line_of(v.as_str(), page));
        },
        None => {},
    }
    assert(texts(r@) =~= memory_lines(opt(*v), opt(*pagesize)));
    r
}

fn uptime_lines_of(up: &Option<String>) -> (r: Vec<String>)
    ensures
        texts(r@) == uptime_lines(opt(*up)),
{
    let mut r: Vec<String> = Vec::new();
    match up {
        Some(t) => {
            let tt = trimmed(t.as_str());
            if crate::text::find_sub_index(tt.as_slice(), chars_of("up ").as_slice()).is_some() {
                let mut line = text("Uptime: ");
                push_str(&mut line, uptime(string_of(tt.as_slice()).as_str()).as_str());
                push_line(&mut r, line);
            }
        },
        None => {},
    }
    assert(texts(r@) =~= uptime_lines(opt(*up)));
    r
}

fn summary_lines_of(r: &Readings) -> (log: Vec<String>)
    ensures
        texts(log@) == summary_lines(r.cache_bytes, r.trash_bytes, r.logs_bytes, texts(r.agent_files@)),
{
    let mut log: Vec<String> = Vec::new();
    let blank = String::new();
    assert(blank@ =~= Seq::<char>::empty());
    push_line(&mut log, blank);
    push_line(&mut log, text("── Résumé nettoyage ──"));
    let mut line = text("Caches: ");
    push_str(&mut line, format_size(r.cache_bytes).as_str());
    push_str(&mut line, " | Corbeille: ");
    push_str(&mut line, format_size(r.trash_bytes).as_str());
    push_str(&mut line, " | Logs: ");
    push_str(&mut line, format_size(r.logs_bytes).as_str());
    push_line(&mut log, line);
    let total = r.cache_bytes.saturating_add(r.trash_bytes).saturating_add(r.logs_bytes);
    let mut line = text("Espace récupérable: ");
    push_str(&mut line, format_size(total).as_str());
    push_line(&mut log, line);
    let (apple, others) = count_agents(&r.agent_files);
    let mut line = text("Agents: ");
    crate::text::push_decimal(&mut line, apple);
    push_str(&mut line, " Apple, ");
    crate::text::push_decimal(&mut line, others);
    push_str(&mut line, " tiers");
    push_line(&mut log, line);
    assert(texts(log@) =~= summary_lines(r.cache_bytes, r.trash_bytes, r.logs_bytes, texts(r.agent_files@)));
    log
}

/// The machine summary: system, processor, memory, disk, uptime, then what
/// could be cleaned and how many startup agents there are.
pub fn get_system_info(r: &Readings) -> (log: Vec<String>)
    ensures
        texts(log@) == system_info_spec(*r),
{
    let mut log: Vec<String> = match &r.sw_vers {
        Some(t) => os_lines_of(t.as_str()),
        None => Vec::new(),
    };
    assert(texts(log@) =~= os_lines(opt(r.sw_vers)));
    append(&mut log, cpu_lines_of(&r.cpu_brand));
    append(&mut log, cores_lines_of(&r.ncpu));
    append(&mut log, ram_lines_of(&r.memsize));
    append(&mut log, memory_lines_of(&r.vm_stat, &r.pagesize));
    let disk = match &r.df {
        Some(t) => disk_lines_of(t.as_str()),
        None => Vec::new(),
    };
    assert(texts(disk@) =~= disk_lines(opt(r.df)));
    append(&mut log, disk);
    append(&mut log, uptime_lines_of(&r.uptime));
    append(&mut log, summary_lines_of(r));
    log
}

} // verus!
