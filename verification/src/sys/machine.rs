//! What the machine reports about itself: macOS version, memory, disk,
//! uptime, read from the text of the commands that tell it.

use vstd::prelude::*;
use crate::format::{trim_end_char, trim_end_char_of};
use crate::task::docker::sat_add;
use crate::text::{
    chars_eq, chars_of, contains_chars, contains_sub, find_sub, find_sub_index, first_index,
    find_char, has_prefix, lines, lines_of, parse_u64, parse_u64_spec, push_chars, push_str,
    slice_to_vec, split_once, split_once_chars, starts_with, string_of, trim, trim_chars,
    views, words, words_of,
};

verus! {

/// Memory figures, in bytes.
#[derive(Debug, Clone, Copy, Default)]
pub struct Memory {
    pub total: u64,
    pub used: u64,
    pub free: u64,
    pub inactive: u64,
}

/// The startup disk.
#[derive(Debug, Clone)]
pub struct Disk {
    pub mount: String,
    pub total: u64,
    pub used: u64,
    pub free: u64,
    pub used_percent: u8,
}

/// A summary of the machine.
#[derive(Debug, Clone)]
pub struct Machine {
    pub os: String,
    pub build: String,
    pub host: String,
    pub cpu: String,
    pub cores: u32,
    pub memory: Memory,
    pub disk: Option<Disk>,
    pub uptime: String,
}

/// What the system said, one text per command; a command that failed
/// leaves its text empty.
#[derive(Debug, Clone)]
pub struct Readings {
    /// `sw_vers`
    pub sw_vers: String,
    /// `scutil --get ComputerName`
    pub computer_name: String,
    /// `sysctl -n machdep.cpu.brand_string`
    pub cpu_brand: String,
    /// `sysctl -n hw.ncpu`
    pub ncpu: String,
    /// `sysctl -n hw.memsize`
    pub memsize: String,
    /// `sysctl -n hw.pagesize`
    pub pagesize: String,
    /// `vm_stat`
    pub vm_stat: String,
    /// `df -k /`
    pub df: String,
    /// `uptime`
    pub uptime: String,
}

/// A `key: value` line, both sides trimmed.
pub open spec fn key_value(line: Seq<char>) -> Option<(Seq<char>, Seq<char>)> {
    match split_once(line, ':') {
        Some((k, v)) => Some((trim(k), trim(v))),
        None => None,
    }
}

/// The value of the last line carrying `key`.
pub open spec fn last_value(ls: Seq<Seq<char>>, key: Seq<char>) -> Option<Seq<char>>
    decreases ls.len(),
{
    if ls.len() == 0 {
        None
    } else {
        match key_value(ls.last()) {
            Some((k, v)) => if k == key {
                Some(v)
            } else {
                last_value(ls.drop_last(), key)
            },
            None => last_value(ls.drop_last(), key),
        }
    }
}

pub open spec fn or_empty(v: Option<Seq<char>>) -> Seq<char> {
    match v {
        Some(s) => s,
        None => Seq::empty(),
    }
}

/// The macOS name and version, and the build number, from `sw_vers`.
pub open spec fn os_version_spec(stdout: Seq<char>) -> (Seq<char>, Seq<char>) {
    let ls = lines(stdout);
    (
        trim(or_empty(last_value(ls, "ProductName"@)) + " "@ + or_empty(last_value(ls, "ProductVersion"@))),
        or_empty(last_value(ls, "BuildVersion"@)),
    )
}

fn key_value_of(line: &[char]) -> (r: Option<(Vec<char>, Vec<char>)>)
    ensures
        match key_value(line@) {
            None => r is None,
            Some((k, v)) => r matches Some((a, b)) && a@ == k && b@ == v,
        },
{
    match split_once_chars(line, ':') {
        None => None,
        Some((k, v)) => Some((trim_chars(k.as_slice()), trim_chars(v.as_slice()))),
    }
}

/// Name + version of macOS, and build number, read from `sw_vers`.
pub fn os_version(stdout: &str) -> (r: (String, String))
    ensures
        r.0@ == os_version_spec(stdout@).0,
        r.1@ == os_version_spec(stdout@).1,
{
    proof {
        reveal_strlit("ProductName");
        reveal_strlit("ProductVersion");
        reveal_strlit("BuildVersion");
        reveal_strlit(" ");
        assert("ProductName"@[7] != "ProductVersion"@[7]);
        assert("ProductName"@[0] != "BuildVersion"@[0]);
        assert("ProductVersion"@[0] != "BuildVersion"@[0]);
    }
    let ls = lines_of(chars_of(stdout).as_slice());
    let ghost all = lines(stdout@);
    let product_name = chars_of("ProductName");
    let product_version = chars_of("ProductVersion");
    let build_version = chars_of("BuildVersion");
    let mut name: Vec<char> = Vec::new();
    let mut version: Vec<char> = Vec::new();
    let mut build: Vec<char> = Vec::new();
    let mut i: usize = 0;
    while i < ls.len()
        invariant
            i <= ls@.len(),
            views(ls@) == all,
            all == lines(stdout@),
            product_name@ == "ProductName"@,
            product_version@ == "ProductVersion"@,
            build_version@ == "BuildVersion"@,
            "ProductName"@ != "ProductVersion"@,
            "ProductName"@ != "BuildVersion"@,
            "ProductVersion"@ != "BuildVersion"@,
            name@ == or_empty(last_value(all.take(i as int), "ProductName"@)),
            version@ == or_empty(last_value(all.take(i as int), "ProductVersion"@)),
            build@ == or_empty(last_value(all.take(i as int), "BuildVersion"@)),
        decreases ls@.len() - i,
    {
        proof {
            assert(all.take(i + 1).drop_last() =~= all.take(i as int));
            assert(all.take(i + 1).last() == ls@[i as int]@);
        }
        match key_value_of(ls[i].as_slice()) {
            None => {},
            Some((k, v)) => {
                if chars_eq(k.as_slice(), product_name.as_slice()) {
                    name = v;
                } else if chars_eq(k.as_slice(), product_version.as_slice()) {
                    version = v;
                } else if chars_eq(k.as_slice(), build_version.as_slice()) {
                    build = v;
                }
            },
        }
        i += 1;
    }
    assert(all.take(ls@.len() as int) =~= all);
    let mut os: Vec<char> = name;
    os.push(' ');
    let mut j: usize = 0;
    let ghost base = os@;
    while j < version.len()
        invariant
            j <= version@.len(),
            os@ == base + version@.take(j as int),
        decreases version@.len() - j,
    {
        os.push(version[j]);
        assert(version@.take(j + 1) =~= version@.take(j as int).push(version@[j as int]));
        j += 1;
    }
    assert(version@.take(version@.len() as int) =~= version@);
    let t = trim_chars(os.as_slice());
    assert(os@ =~= or_empty(last_value(all, "ProductName"@)) + " "@ + or_empty(last_value(all, "ProductVersion"@)));
    (string_of(t.as_slice()), string_of(build.as_slice()))
}

/// The first two comma-separated fields, joined back with their comma.
pub open spec fn first_two_fields(p: Seq<char>) -> Seq<char> {
    let c1 = first_index(p, ',');
    if c1 < 0 {
        p
    } else {
        let c2 = first_index(p.skip(c1 + 1), ',');
        if c2 < 0 {
            p
        } else {
            p.take(c1 + 1 + c2)
        }
    }
}

/// What `uptime` says after its first `up `, up to the next one, cut after
/// the second field: `3 days, 4:12`.
pub open spec fn uptime_spec(stdout: Seq<char>) -> Seq<char> {
    let i = find_sub(stdout, "up "@);
    if i < 0 {
        Seq::empty()
    } else {
        let rest = stdout.skip(i + 3);
        let j = find_sub(rest, "up "@);
        let piece = if j < 0 {
            rest
        } else {
            rest.take(j)
        };
        trim(first_two_fields(piece))
    }
}

/// Time since boot, read from `uptime`.
pub fn uptime(stdout: &str) -> (r: String)
    ensures
        r@ == uptime_spec(stdout@),
{
    proof {
        reveal_strlit("up ");
    }
    let s = chars_of(stdout);
    let up = chars_of("up ");
    let n = s.len();
    match find_sub_index(s.as_slice(), up.as_slice()) {
        None => String::new(),
        Some(i) => {
            proof {
                crate::text::lemma_find_sub_bound(s@, up@);
            }
            let rest = slice_to_vec(s.as_slice(), i + 3, n);
            let piece = match find_sub_index(rest.as_slice(), up.as_slice()) {
                None => rest,
                Some(j) => slice_to_vec(rest.as_slice(), 0, j),
            };
            proof {
                crate::text::lemma_first_index(piece@, ',');
            }
            let two = match find_char(piece.as_slice(), ',') {
                None => piece,
                Some(c1) => {
                    let after = slice_to_vec(piece.as_slice(), c1 + 1, piece.len());
                    proof {
                        crate::text::lemma_first_index(after@, ',');
                    }
                    match find_char(after.as_slice(), ',') {
                        None => piece,
                        Some(c2) => slice_to_vec(piece.as_slice(), 0, c1 + 1 + c2),
                    }
                },
            };
            string_of(trim_chars(two.as_slice()).as_slice())
        },
    }
}

/// Which `vm_stat` figure a label names: free, active, inactive, wired,
/// compressed, or none.
pub open spec fn vm_field(label: Seq<char>) -> int {
    if label == "Pages free"@ {
        0
    } else if label == "Pages active"@ {
        1
    } else if label == "Pages inactive"@ {
        2
    } else if has_prefix(label, "Pages wired"@) {
        3
    } else if contains_sub(label, "occupied by compressor"@) {
        4
    } else {
        -1
    }
}

/// `a * b`, held at `u64::MAX`.
pub open spec fn sat_mul(a: u64, b: u64) -> u64 {
    if a * b > u64::MAX {
        u64::MAX
    } else {
        (a * b) as u64
    }
}

fn mul_saturating(a: u64, b: u64) -> (r: u64)
    ensures
        r == sat_mul(a, b),
{
    match a.checked_mul(b) {
        Some(v) => v,
        None => u64::MAX,
    }
}

/// A page count as `vm_stat` prints it (`123456.`), 0 when unreadable.
pub open spec fn pages_of(value: Seq<char>) -> u64 {
    match parse_u64_spec(trim_end_char(trim(value), '.')) {
        Some(p) => p,
        None => 0,
    }
}

/// The bytes of the last line of `vm_stat` that reports a field.
pub open spec fn vm_last(ls: Seq<Seq<char>>, field: int, page: u64) -> u64
    decreases ls.len(),
{
    if ls.len() == 0 {
        0
    } else {
        match split_once(ls.last(), ':') {
            Some((label, value)) => if vm_field(trim(label)) == field {
                sat_mul(pages_of(value), page)
            } else {
                vm_last(ls.drop_last(), field, page)
            },
            None => vm_last(ls.drop_last(), field, page),
        }
    }
}

/// The page size `sysctl` reports, 16 KiB when it says nothing readable.
pub open spec fn page_size_of(text: Seq<char>) -> u64 {
    match parse_u64_spec(text) {
        Some(p) => p,
        None => 16384,
    }
}

/// The memory figures from `hw.memsize`, `hw.pagesize` and `vm_stat`.
pub open spec fn memory_spec(memsize: Seq<char>, pagesize: Seq<char>, vm_stat: Seq<char>) -> Memory {
    let ls = lines(vm_stat);
    let page = page_size_of(pagesize);
    Memory {
        total: match parse_u64_spec(memsize) {
            Some(t) => t,
            None => 0,
        },
        used: sat_add(sat_add(vm_last(ls, 1, page), vm_last(ls, 3, page)), vm_last(ls, 4, page)),
        free: vm_last(ls, 0, page),
        inactive: vm_last(ls, 2, page),
    }
}

fn field_of(label: &[char]) -> (r: i8)
    ensures
        r as int == vm_field(label@),
{
    if chars_eq(label, chars_of("Pages free").as_slice()) {
        0
    } else if chars_eq(label, chars_of("Pages active").as_slice()) {
        1
    } else if chars_eq(label, chars_of("Pages inactive").as_slice()) {
        2
    } else if starts_with(label, chars_of("Pages wired").as_slice()) {
        3
    } else if contains_chars(label, chars_of("occupied by compressor").as_slice()) {
        4
    } else {
        -1
    }
}

impl Memory {
    /// Reads the memory figures; the used memory is active + wired +
    /// compressed. Sums and products are held at `u64::MAX`.
    pub fn collect(memsize: &str, pagesize: &str, vm_stat: &str) -> (r: Memory)
        ensures
            r == memory_spec(memsize@, pagesize@, vm_stat@),
    {
        let total = match parse_u64(chars_of(memsize).as_slice()) {
            Some(t) => t,
            None => 0,
        };
        let page: u64 = match parse_u64(chars_of(pagesize).as_slice()) {
            Some(p) => p,
            None => 16384,
        };
        let ls = lines_of(chars_of(vm_stat).as_slice());
        let ghost all = lines(vm_stat@);
        let mut values: [u64; 5] = [0, 0, 0, 0, 0];
        let mut i: usize = 0;
        while i < ls.len()
            invariant
                i <= ls@.len(),
                views(ls@) == all,
                forall|f: int| 0 <= f < 5 ==> #[trigger] values@[f] == vm_last(all.take(i as int), f, page),
            decreases ls@.len() - i,
        {
            proof {
                assert(all.take(i + 1).drop_last() =~= all.take(i as int));
                assert(all.take(i + 1).last() == ls@[i as int]@);
            }
            match split_once_chars(ls[i].as_slice(), ':') {
                None => {},
                Some((label, value)) => {
                    let f = field_of(trim_chars(label.as_slice()).as_slice());
                    if f >= 0 {
                        let tv = trim_chars(value.as_slice());
                        let digits = trim_end_char_of(tv.as_slice(), '.');
                        let pages = match parse_u64(digits.as_slice()) {
                            Some(p) => p,
                            None => 0,
                        };
                        let bytes = mul_saturating(pages, page);
                        let ghost before = values@;
                        values.set(f as usize, bytes);
                        assert forall|g: int| 0 <= g < 5 implies #[trigger] values@[g] == vm_last(all.take(i + 1), g, page) by {
                            if g != f as int {
                                assert(values@[g] == before[g]);
                            }
                        }
                    }
                },
            }
            i += 1;
        }
        assert(all.take(ls@.len() as int) =~= all);
        assert(values@[0] == vm_last(all, 0, page));
        assert(values@[1] == vm_last(all, 1, page));
        assert(values@[2] == vm_last(all, 2, page));
        assert(values@[3] == vm_last(all, 3, page));
        assert(values@[4] == vm_last(all, 4, page));
        Memory {
            total,
            used: values[1].saturating_add(values[3]).saturating_add(values[4]),
            free: values[0],
            inactive: values[2],
        }
    }
}

/// A kilobyte count of `df -k` in bytes, 0 when unreadable.
pub open spec fn kb_of(field: Seq<char>) -> u64 {
    match parse_u64_spec(field) {
        Some(k) => sat_mul(k, 1024),
        None => 0,
    }
}

/// What `u8::from_str` accepts.
pub open spec fn parse_u8_spec(s: Seq<char>) -> Option<u8> {
    match parse_u64_spec(s) {
        Some(v) => if v <= 255 {
            Some(v as u8)
        } else {
            None
        },
        None => None,
    }
}

/// The disk line of `df -k` (its second line), when it has the six
/// expected fields.
pub open spec fn disk_spec(df: Seq<char>) -> Option<(Seq<char>, u64, u64, u64, u8)> {
    let ls = lines(df);
    if ls.len() < 2 {
        None
    } else {
        let fields = words(ls[1]);
        if fields.len() < 6 {
            None
        } else {
            Some((
                fields.last(),
                kb_of(fields[1]),
                kb_of(fields[2]),
                kb_of(fields[3]),
                match parse_u8_spec(trim_end_char(fields[4], '%')) {
                    Some(p) => p,
                    None => 0,
                },
            ))
        }
    }
}

fn kb(field: &Vec<char>) -> (r: u64)
    ensures
        r == kb_of(field@),
{
    match parse_u64(field.as_slice()) {
        Some(k) => mul_saturating(k, 1024),
        None => 0,
    }
}

impl Disk {
    /// Reads the startup disk from `df -k` (1 KiB blocks, whatever the
    /// locale).
    pub fn collect(df: &str) -> (r: Option<Disk>)
        ensures
            match disk_spec(df@) {
                None => r is None,
                Some((mount, total, used, free, pct)) => r matches Some(d) && d.mount@ == mount
                    && d.total == total && d.used == used && d.free == free && d.used_percent
                    == pct,
            },
    {
        let ls = lines_of(chars_of(df).as_slice());
        if ls.len() < 2 {
            return None;
        }
        let fields = words_of(ls[1].as_slice());
        assert(ls@[1]@ == lines(df@)[1]);
        if fields.len() < 6 {
            return None;
        }
        let pct_text = trim_end_char_of(fields[4].as_slice(), '%');
        let pct: u8 = match parse_u64(pct_text.as_slice()) {
            Some(v) => if v <= 255 {
                v as u8
            } else {
                0
            },
            None => 0,
        };
        Some(Disk {
            mount: string_of(fields[fields.len() - 1].as_slice()),
            total: kb(&fields[1]),
            used: kb(&fields[2]),
            free: kb(&fields[3]),
            used_percent: pct,
        })
    }
}

/// What `u32::from_str` accepts.
pub open spec fn parse_u32_spec(s: Seq<char>) -> Option<u32> {
    match parse_u64_spec(s) {
        Some(v) => if v <= u32::MAX {
            Some(v as u32)
        } else {
            None
        },
        None => None,
    }
}

impl Machine {
    /// Puts together everything the system said.
    pub fn collect(r: &Readings) -> (m: Machine)
        ensures
            m.os@ == os_version_spec(r.sw_vers@).0,
            m.build@ == os_version_spec(r.sw_vers@).1,
            m.host@ == r.computer_name@,
            m.cpu@ == r.cpu_brand@,
            m.cores == (match parse_u32_spec(r.ncpu@) {
                Some(c) => c,
                None => 0,
            }),
            m.memory == memory_spec(r.memsize@, r.pagesize@, r.vm_stat@),
            match disk_spec(r.df@) {
                None => m.disk is None,
                Some((mount, total, used, free, pct)) => m.disk matches Some(d) && d.mount@ == mount
                    && d.total == total && d.used == used && d.free == free && d.used_percent
                    == pct,
            },
            m.uptime@ == uptime_spec(r.uptime@),
    {
        let (os, build) = os_version(r.sw_vers.as_str());
        let cores: u32 = match parse_u64(chars_of(r.ncpu.as_str()).as_slice()) {
            Some(v) => if v <= 0xffff_ffff {
                v as u32
            } else {
                0
            },
            None => 0,
        };
        Machine {
            os,
            build,
            host: r.computer_name.clone(),
            cpu: r.cpu_brand.clone(),
            cores,
            memory: Memory::collect(r.memsize.as_str(), r.pagesize.as_str(), r.vm_stat.as_str()),
            disk: Disk::collect(r.df.as_str()),
            uptime: uptime(r.uptime.as_str()),
        }
    }
}

} // verus!
