//! Docker cleanup: unused containers, images, build caches and networks.
//!
//! Volumes are never touched: they hold user data (databases, uploads…) and
//! removing them cannot be undone.

use vstd::prelude::*;
use crate::format::{number_parts, scaled_value, size, size_spec, TIB};
use crate::text::{
    ascii_lowercase, ascii_lowercase_chars, chars_eq, chars_of, eq_ascii_case,
    eq_ignore_ascii_case, first_word_end, first_word_len, has_prefix, is_digit, lines, lines_of,
    push_chars, push_str, slice_to_vec, starts_with, string_of, trim, trim_chars, views,
};

verus! {

/// What a JSON text says under `key` (then at position `index` of the
/// array found there, when an index is given): `None` when the text is not
/// JSON, `Some(None)` when nothing is there or it is not a string.
pub uninterp spec fn json_string_field(text: Seq<char>, key: Seq<char>, index: Option<usize>) -> Option<Option<Seq<char>>>;

/// Reads one string of a JSON text with `serde_json::from_str`, then
/// `Value`'s indexing (by key, then by position) and `as_str`.
#[verifier::external_body]
pub(crate) fn json_field(text: &str, key: &str, index: Option<usize>) -> (r: Option<Option<String>>)
    ensures
        r is None <==> json_string_field(text@, key@, index) is None,
        r matches Some(f) ==> (f is None <==> json_string_field(text@, key@, index)->0 is None),
        r matches Some(Some(v)) ==> json_string_field(text@, key@, index) == Some(Some(v@)),
{
    match serde_json::from_str::<serde_json::Value>(text) {
        Ok(value) => {
            let found = match index {
                Some(i) => &value[key][i],
                None => &value[key],
            };
            Some(found.as_str().map(|v| v.to_string()))
        },
        Err(_) => None,
    }
}

/// The prune commands, in the order they run. None of them touches a volume.
pub open spec fn prune_commands() -> Seq<Seq<Seq<char>>> {
    seq![
        seq!["container"@, "prune"@, "-f"@],
        seq!["image"@, "prune"@, "-a"@, "-f"@],
        seq!["builder"@, "prune"@, "-a"@, "-f"@],
        seq!["network"@, "prune"@, "-f"@],
    ]
}

fn word(s: &str) -> (r: String)
    ensures
        r@ == s@,
{
    let mut r = String::new();
    push_str(&mut r, s);
    r
}

/// The arguments of each `docker … prune`, in order.
pub fn prune_args() -> (r: Vec<Vec<String>>)
    ensures
        r@.len() == 4,
        forall|i: int| 0 <= i < 4 ==> #[trigger] crate::config::string_views(r@[i]@) == prune_commands()[i],
{
    let r = vec![
        vec![word("container"), word("prune"), word("-f")],
        vec![word("image"), word("prune"), word("-a"), word("-f")],
        vec![word("builder"), word("prune"), word("-a"), word("-f")],
        vec![word("network"), word("prune"), word("-f")],
    ];
    assert forall|i: int| 0 <= i < 4 implies #[trigger] crate::config::string_views(r@[i]@) == prune_commands()[i] by {
        assert(crate::config::string_views(r@[i]@) =~= prune_commands()[i]);
    }
    r
}

/// Words joined with single spaces.
pub open spec fn join_words(ws: Seq<Seq<char>>) -> Seq<char>
    decreases ws.len(),
{
    if ws.len() == 0 {
        Seq::empty()
    } else if ws.len() == 1 {
        ws[0]
    } else {
        join_words(ws.drop_last()) + " "@ + ws.last()
    }
}

fn joined(ws: &Vec<String>) -> (r: String)
    ensures
        r@ == join_words(crate::config::string_views(ws@)),
{
    let ghost v = crate::config::string_views(ws@);
    let mut out = String::new();
    let mut i: usize = 0;
    while i < ws.len()
        invariant
            i <= ws@.len(),
            v == crate::config::string_views(ws@),
            out@ == join_words(v.take(i as int)),
        decreases ws@.len() - i,
    {
        assert(v.take(i + 1).drop_last() == v.take(i as int));
        assert(v.take(i + 1).last() == ws@[i as int]@);
        if i > 0 {
            push_str(&mut out, " ");
        } else {
            assert(v.take(0).len() == 0);
        }
        push_str(&mut out, ws[i].as_str());
        i += 1;
    }
    assert(v.take(ws@.len() as int) == v);
    out
}

/// Commands that would run, for dry-run mode.
pub fn planned_commands() -> (r: Vec<String>)
    ensures
        r@.len() == 4,
        forall|i: int| 0 <= i < 4 ==> (#[trigger] r@[i])@ == "docker "@ + join_words(prune_commands()[i]),
{
    let all = prune_args();
    let mut r: Vec<String> = Vec::new();
    let mut i: usize = 0;
    while i < 4
        invariant
            i <= 4,
            all@.len() == 4,
            forall|k: int| 0 <= k < 4 ==> #[trigger] crate::config::string_views(all@[k]@) == prune_commands()[k],
            r@.len() == i,
            forall|k: int| 0 <= k < i ==> (#[trigger] r@[k])@ == "docker "@ + join_words(prune_commands()[k]),
        decreases 4 - i,
    {
        let mut line = word("docker ");
        let j = joined(&all[i]);
        push_str(&mut line, j.as_str());
        r.push(line);
        i += 1;
    }
    r
}

/// The label of a prune in reports: `docker container prune`.
pub fn prune_label(args: &Vec<String>) -> (r: String)
    requires
        args@.len() >= 2,
    ensures
        r@ == "docker "@ + args@[0]@ + " "@ + args@[1]@,
{
    let mut r = word("docker ");
    push_str(&mut r, args[0].as_str());
    push_str(&mut r, " ");
    push_str(&mut r, args[1].as_str());
    r
}

/// The multiplier of a Docker size unit: decimal for `kB`…, binary for `KiB`…
pub open spec fn docker_multiplier(unit: Seq<char>) -> Option<nat> {
    let u = ascii_lowercase(trim(unit));
    if u == "b"@ { Some(1) }
    else if u == "kb"@ { Some(1000) }
    else if u == "mb"@ { Some(1000000) }
    else if u == "gb"@ { Some(1000000000) }
    else if u == "tb"@ { Some(1000000000000) }
    else if u == "kib"@ { Some(1024) }
    else if u == "mib"@ { Some(1048576) }
    else if u == "gib"@ { Some(1073741824) }
    else if u == "tib"@ { Some(1099511627776) }
    else { None }
}

/// Index of the first character that is neither a digit nor a point, if any.
pub open spec fn unit_start(s: Seq<char>) -> int
    decreases s.len(),
{
    if s.len() == 0 {
        -1
    } else if !is_digit(s[0]) && s[0] != '.' {
        0
    } else {
        let r = unit_start(s.drop_first());
        if r < 0 { -1 } else { r + 1 }
    }
}

/// How Docker prints a size, `1.093GB` or `1.2GB (57%)`: the first word, a
/// number, then a unit.
pub open spec fn docker_size(input: Seq<char>) -> Option<u64> {
    let text = trim(input);
    let w = text.take(first_word_len(text));
    let split = unit_start(w);
    if text.len() == 0 || split < 0 {
        None
    } else {
        match number_parts(w.take(split)) {
            None => None,
            Some((a, b)) => match docker_multiplier(w.skip(split)) {
                None => None,
                Some(m) => Some(scaled_value(a, b, m) as u64),
            },
        }
    }
}

pub fn unit_start_of(s: &[char]) -> (r: Option<usize>)
    ensures
        r matches Some(i) ==> i as int == unit_start(s@) && i < s@.len(),
        r is None ==> unit_start(s@) < 0,
{
    let mut i: usize = 0;
    assert(s@.skip(0) == s@);
    while i < s.len()
        invariant
            i <= s@.len(),
            unit_start(s@) == (if unit_start(s@.skip(i as int)) < 0 { -1 } else { unit_start(s@.skip(i as int)) + i }),
        decreases s@.len() - i,
    {
        if !(('0' <= s[i] && s[i] <= '9') || s[i] == '.') {
            return Some(i);
        }
        assert(s@.skip(i as int).drop_first() == s@.skip(i + 1));
        i += 1;
    }
    None
}

fn is_unit(u: &[char], name: &str) -> (r: bool)
    ensures
        r == (u@ == name@),
{
    chars_eq(u, chars_of(name).as_slice())
}

fn docker_multiplier_of(unit: &[char]) -> (r: Option<u64>)
    ensures
        r matches Some(m) ==> docker_multiplier(unit@) == Some(m as nat) && 1 <= m <= TIB,
        r is None ==> docker_multiplier(unit@) is None,
{
    let u = ascii_lowercase_chars(trim_chars(unit).as_slice());
    let u = u.as_slice();
    if is_unit(u, "b") { Some(1) }
    else if is_unit(u, "kb") { Some(1000) }
    else if is_unit(u, "mb") { Some(1000000) }
    else if is_unit(u, "gb") { Some(1000000000) }
    else if is_unit(u, "tb") { Some(1000000000000) }
    else if is_unit(u, "kib") { Some(1024) }
    else if is_unit(u, "mib") { Some(1048576) }
    else if is_unit(u, "gib") { Some(1073741824) }
    else if is_unit(u, "tib") { Some(1099511627776) }
    else { None }
}

/// Parses a size the way Docker prints it: `1.093GB`, `972.5MB`, `0B`.
///
/// Docker uses decimal units, unlike the rest of this tool. The number is
/// read exactly and truncated to whole bytes.
pub fn parse_size(input: &str) -> (r: Option<u64>)
    ensures
        r == docker_size(input@),
{
    let text = trim_chars(chars_of(input).as_slice());
    if text.len() == 0 {
        return None;
    }
    let end = first_word_end(text.as_slice());
    let w = slice_to_vec(text.as_slice(), 0, end);
    let split = match unit_start_of(w.as_slice()) {
        Some(i) => i,
        None => return None,
    };
    let number = slice_to_vec(w.as_slice(), 0, split);
    let unit = slice_to_vec(w.as_slice(), split, w.len());
    match crate::format::number_parts_of(number.as_slice()) {
        None => None,
        Some((a, b)) => match docker_multiplier_of(unit.as_slice()) {
            None => None,
            Some(m) => Some(crate::format::scale(a.as_slice(), b.as_slice(), m)),
        },
    }
}

/// Extracts `Total reclaimed space: 1.2GB` from a `prune` output: the first
/// line that carries it decides.
pub open spec fn reclaimed_spec(output: Seq<char>) -> Option<u64> {
    let ls = lines(output);
    let prefix = "Total reclaimed space:"@;
    if exists|i: int| 0 <= i < ls.len() && has_prefix(trim(#[trigger] ls[i]), prefix) {
        let i = choose|i: int|
            0 <= i < ls.len() && has_prefix(trim(#[trigger] ls[i]), prefix) && forall|j: int|
                0 <= j < i ==> !has_prefix(trim(#[trigger] ls[j]), prefix);
        docker_size(trim(trim(ls[i]).skip(prefix.len() as int)))
    } else {
        None
    }
}

pub fn reclaimed_space(output: &str) -> (r: Option<u64>)
    ensures
        r == reclaimed_spec(output@),
{
    let ls = lines_of(chars_of(output).as_slice());
    let prefix = chars_of("Total reclaimed space:");
    let mut i: usize = 0;
    while i < ls.len()
        invariant
            i <= ls@.len(),
            views(ls@) == lines(output@),
            prefix@ == "Total reclaimed space:"@,
            forall|j: int| 0 <= j < i ==> !has_prefix(trim(#[trigger] lines(output@)[j]), "Total reclaimed space:"@),
        decreases ls@.len() - i,
    {
        let t = trim_chars(ls[i].as_slice());
        if starts_with(t.as_slice(), prefix.as_slice()) {
            let rest = slice_to_vec(t.as_slice(), prefix.len(), t.len());
            let value = string_of(trim_chars(rest.as_slice()).as_slice());
            proof {
                let ls_s = lines(output@);
                assert(ls_s[i as int] == ls@[i as int]@);
                let pfx = "Total reclaimed space:"@;
                let w = choose|w: int|
                    0 <= w < ls_s.len() && has_prefix(trim(#[trigger] ls_s[w]), pfx) && forall|j: int|
                        0 <= j < w ==> !has_prefix(trim(#[trigger] ls_s[j]), pfx);
                assert(has_prefix(trim(ls_s[i as int]), pfx) && forall|j: int|
                    0 <= j < i ==> !has_prefix(trim(#[trigger] ls_s[j]), pfx));
                if w < i {
                } else if w > i {
                    assert(!has_prefix(trim(ls_s[i as int]), pfx));
                }
                assert(rest@ == trim(ls_s[w]).skip(pfx.len() as int));
            }
            return parse_size(value.as_str());
        }
        i += 1;
    }
    None
}


/// Checks that Docker is installed and that the daemon answers: the first
/// failing condition gives the reason.
pub fn availability(installed: bool, daemon_answers: bool) -> (r: Result<(), String>)
    ensures
        !installed ==> (r matches Err(m) && m@ == "Docker is not installed"@),
        installed && !daemon_answers ==> (r matches Err(m) && m@
            == "the Docker daemon is not running"@),
        installed && daemon_answers ==> r is Ok,
{
    if !installed {
        return Err(word("Docker is not installed"));
    }
    if !daemon_answers {
        return Err(word("the Docker daemon is not running"));
    }
    Ok(())
}

/// Reclaimable space according to `docker system df`.
#[derive(Debug, Clone)]
pub struct Reclaimable {
    pub bytes: u64,
    /// Breakdown per resource type (images, containers, build cache).
    pub details: Vec<String>,
}

impl Default for Reclaimable {
    fn default() -> (r: Self)
        ensures
            r.bytes == 0,
            r.details@.len() == 0,
    {
        Reclaimable { bytes: 0, details: Vec::new() }
    }
}

/// What one line of `docker system df --format '{{json .}}'` adds: its
/// resource kind and its reclaimable bytes. Volumes are never pruned, so they
/// are not counted; lines that are not JSON, carry no size, or reclaim nothing
/// add nothing.
pub open spec fn df_entry(line: Seq<char>) -> Option<(Seq<char>, u64)> {
    match json_string_field(line, "Type"@, None) {
        None => None,
        Some(kind_field) => {
            let kind = match kind_field {
                Some(k) => k,
                None => Seq::<char>::empty(),
            };
            if eq_ignore_ascii_case(kind, "Local Volumes"@) {
                None
            } else {
                match json_string_field(line, "Reclaimable"@, None) {
                    Some(Some(text)) => match docker_size(text) {
                        Some(b) => if b > 0 {
                            Some((kind, b))
                        } else {
                            None
                        },
                        None => None,
                    },
                    _ => None,
                }
            }
        },
    }
}

/// `a + b`, held at `u64::MAX`.
pub open spec fn sat_add(a: u64, b: u64) -> u64 {
    if a + b > u64::MAX {
        u64::MAX
    } else {
        (a + b) as u64
    }
}

/// Bytes and details gathered from the given lines, in order.
pub open spec fn df_totals(ls: Seq<Seq<char>>) -> (u64, Seq<Seq<char>>)
    decreases ls.len(),
{
    if ls.len() == 0 {
        (0, Seq::empty())
    } else {
        let before = df_totals(ls.drop_last());
        match df_entry(ls.last()) {
            Some((kind, b)) => (
                sat_add(before.0, b),
                before.1.push(kind + " : "@ + size_spec(b as nat)),
            ),
            None => before,
        }
    }
}

/// Reads the reclaimable space from the output of
/// `docker system df --format '{{json .}}'`. The total is held at `u64::MAX`.
pub fn reclaimable(stdout: &str) -> (r: Reclaimable)
    ensures
        r.bytes == df_totals(lines(stdout@)).0,
        crate::config::string_views(r.details@) == df_totals(lines(stdout@)).1,
{
    let ls = lines_of(chars_of(stdout).as_slice());
    let mut result = Reclaimable::default();
    let mut i: usize = 0;
    while i < ls.len()
        invariant
            i <= ls@.len(),
            views(ls@) == lines(stdout@),
            result.bytes == df_totals(lines(stdout@).take(i as int)).0,
            crate::config::string_views(result.details@) == df_totals(lines(stdout@).take(i as int)).1,
        decreases ls@.len() - i,
    {
        let ghost before = lines(stdout@).take(i as int);
        let ghost now = lines(stdout@).take(i + 1);
        proof {
            assert(now.drop_last() =~= before);
            assert(now.last() == ls@[i as int]@);
        }
        let line = string_of(ls[i].as_slice());
        match json_field(line.as_str(), "Type", None) {
            None => {},
            Some(kind_field) => {
                let kind = match kind_field {
                    Some(k) => k,
                    None => String::new(),
                };
                let kc = chars_of(kind.as_str());
                if !eq_ascii_case(kc.as_slice(), chars_of("Local Volumes").as_slice()) {
                    match json_field(line.as_str(), "Reclaimable", None) {
                        Some(Some(text)) => match parse_size(text.as_str()) {
                            Some(b) => {
                                if b > 0 {
                                    result.bytes = result.bytes.saturating_add(b);
                                    let mut d = kind;
                                    push_str(&mut d, " : ");
                                    let sz = size(b);
                                    push_str(&mut d, sz.as_str());
                                    let ghost old_details = result.details@;
                                    result.details.push(d);
                                    proof {
                                        assert(crate::config::string_views(result.details@) =~= crate::config::string_views(old_details).push(d@));
                                    }
                                }
                            },
                            None => {},
                        },
                        _ => {},
                    }
                }
            },
        }
        i += 1;
    }
    proof {
        assert(lines(stdout@).take(ls@.len() as int) =~= lines(stdout@));
    }
    result
}

/// Result of a prune.
#[derive(Debug, Clone)]
pub struct Pruned {
    pub freed: u64,
    pub messages: Vec<String>,
}

/// `docker` and the first two words of a command, as shown in reports.
pub open spec fn prune_label_spec(args: Seq<Seq<char>>) -> Seq<char> {
    "docker "@ + args[0] + " "@ + args[1]
}

/// The report line of one prune: its freed space, or why it failed.
pub open spec fn prune_line(args: Seq<Seq<char>>, outcome: Result<Seq<char>, Seq<char>>) -> Seq<char> {
    match outcome {
        Ok(text) => {
            let b = match reclaimed_spec(text) {
                Some(b) => b,
                None => 0,
            };
            prune_label_spec(args) + " — "@ + size_spec(b as nat)
        },
        Err(e) => prune_label_spec(args) + " — failed: "@ + e,
    }
}

/// What a successful prune reclaimed, 0 for a failed one.
pub open spec fn prune_freed(outcome: Result<Seq<char>, Seq<char>>) -> u64 {
    match outcome {
        Ok(text) => match reclaimed_spec(text) {
            Some(b) => b,
            None => 0,
        },
        Err(_) => 0,
    }
}

/// Freed bytes over the first `n` prunes, held at `u64::MAX`.
pub open spec fn prune_total(outcomes: Seq<Result<Seq<char>, Seq<char>>>, n: int) -> u64
    decreases n,
{
    if n <= 0 {
        0
    } else {
        sat_add(prune_total(outcomes, n - 1), prune_freed(outcomes[n - 1]))
    }
}

/// An outcome's texts.
pub open spec fn outcome_view(o: Result<String, String>) -> Result<Seq<char>, Seq<char>> {
    match o {
        Ok(t) => Ok(t@),
        Err(e) => Err(e@),
    }
}

/// Reports the Docker prunes from what each command printed (its output on
/// success, its error otherwise), in the order of `prune_commands()`.
pub fn prune(outcomes: Vec<Result<String, String>>) -> (r: Pruned)
    requires
        outcomes@.len() == 4,
    ensures
        r.freed == prune_total(outcomes@.map_values(|o: Result<String, String>| outcome_view(o)), 4),
        r.messages@.len() == 4,
        forall|i: int| 0 <= i < 4 ==> #[trigger] r.messages@[i]@ == prune_line(
            prune_commands()[i],
            outcome_view(outcomes@[i]),
        ),
{
    let commands = prune_args();
    let ghost os = outcomes@.map_values(|o: Result<String, String>| outcome_view(o));
    let mut freed: u64 = 0;
    let mut messages: Vec<String> = Vec::new();
    let mut i: usize = 0;
    while i < 4
        invariant
            i <= 4,
            outcomes@.len() == 4,
            os == outcomes@.map_values(|o: Result<String, String>| outcome_view(o)),
            commands@.len() == 4,
            forall|k: int| 0 <= k < 4 ==> #[trigger] crate::config::string_views(commands@[k]@) == prune_commands()[k],
            freed == prune_total(os, i as int),
            messages@.len() == i,
            forall|k: int| 0 <= k < i ==> #[trigger] messages@[k]@ == prune_line(
                prune_commands()[k],
                outcome_view(outcomes@[k]),
            ),
        decreases 4 - i,
    {
        let args = &commands[i];
        assert(crate::config::string_views(args@) == prune_commands()[i as int]);
        assert(args@.len() >= 2 && args@[0]@ == prune_commands()[i as int][0] && args@[1]@ == prune_commands()[i as int][1]) by {
            assert(crate::config::string_views(args@)[0] == args@[0]@);
            assert(crate::config::string_views(args@)[1] == args@[1]@);
        }
        let mut label = word("docker ");
        push_str(&mut label, args[0].as_str());
        push_str(&mut label, " ");
        push_str(&mut label, args[1].as_str());
        match &outcomes[i] {
            Ok(text) => {
                let reclaimed = match reclaimed_space(text.as_str()) {
                    Some(b) => b,
                    None => 0,
                };
                freed = freed.saturating_add(reclaimed);
                push_str(&mut label, " — ");
                let sz = size(reclaimed);
                push_str(&mut label, sz.as_str());
            },
            Err(err) => {
                push_str(&mut label, " — failed: ");
                push_str(&mut label, err.as_str());
            },
        }
        assert(os[i as int] == outcome_view(outcomes@[i as int]));
        messages.push(label);
        i += 1;
    }
    Pruned { freed, messages }
}
} // verus!
