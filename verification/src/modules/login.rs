//! Startup agents, first generation: listed, disabled, enabled, removed.

use vstd::prelude::*;
use crate::modules::utils::{cat, push_line, text};
use crate::task::journal::{less_text, text_less};
use crate::task::texts;
use crate::text::{chars_of, chars_eq, decimal, has_prefix, has_suffix, push_decimal, push_str, ends_with, starts_with, string_of};

verus! {

/// The texts in ascending order, each inserted after those not above it.
pub open spec fn insert_sorted(s: Seq<Seq<char>>, x: Seq<char>) -> Seq<Seq<char>>
    decreases s.len(),
{
    if s.len() == 0 {
        seq![x]
    } else if text_less(x, s[0]) {
        seq![x] + s
    } else {
        seq![s[0]] + insert_sorted(s.drop_first(), x)
    }
}

/// The texts sorted by insertion, which is the order a stable sort gives.
pub open spec fn sorted_texts(s: Seq<Seq<char>>) -> Seq<Seq<char>>
    decreases s.len(),
{
    if s.len() == 0 {
        Seq::empty()
    } else {
        insert_sorted(sorted_texts(s.drop_last()), s.last())
    }
}

/// The position `x` goes to: before the first text above it.
pub open spec fn insert_at(s: Seq<Seq<char>>, x: Seq<char>) -> int
    decreases s.len(),
{
    if s.len() == 0 || text_less(x, s[0]) {
        0
    } else {
        1 + insert_at(s.drop_first(), x)
    }
}

proof fn lemma_insert(s: Seq<Seq<char>>, x: Seq<char>)
    ensures
        0 <= insert_at(s, x) <= s.len(),
        insert_sorted(s, x) == s.take(insert_at(s, x)) + seq![x] + s.skip(insert_at(s, x)),
        forall|i: int| 0 <= i < insert_at(s, x) ==> !text_less(x, #[trigger] s[i]),
        insert_at(s, x) < s.len() ==> text_less(x, s[insert_at(s, x)]),
    decreases s.len(),
{
    if s.len() == 0 {
        assert(s.take(0) + seq![x] + s.skip(0) =~= seq![x]);
    } else if text_less(x, s[0]) {
        assert(s.take(0) + seq![x] + s.skip(0) =~= seq![x] + s);
    } else {
        lemma_insert(s.drop_first(), x);
        let p = insert_at(s.drop_first(), x);
        assert(seq![s[0]] + (s.drop_first().take(p) + seq![x] + s.drop_first().skip(p)) =~= s.take(p + 1) + seq![x]
            + s.skip(p + 1));
        assert forall|i: int| 0 <= i < p + 1 implies !text_less(x, #[trigger] s[i]) by {
            if i > 0 {
                assert(s[i] == s.drop_first()[i - 1]);
            }
        }
    }
}

fn copy_text(s: &String) -> (r: String)
    ensures
        r == *s,
{
    s.clone()
}

/// Sorts texts the way a stable sort does.
pub fn sort_names(names: &Vec<String>) -> (r: Vec<String>)
    ensures
        texts(r@) == sorted_texts(texts(names@)),
{
    let mut r: Vec<String> = Vec::new();
    let mut i: usize = 0;
    while i < names.len()
        invariant
            i <= names@.len(),
            texts(r@) == sorted_texts(texts(names@).take(i as int)),
        decreases names@.len() - i,
    {
        assert(texts(names@).take(i + 1).drop_last() =~= texts(names@).take(i as int));
        let x = chars_of(names[i].as_str());
        let ghost s = texts(r@);
        let mut p: usize = 0;
        proof {
            lemma_insert(s, x@);
        }
        while p < r.len() && !less_text(x.as_slice(), chars_of(r[p].as_str()).as_slice())
            invariant
                p <= r@.len(),
                s == texts(r@),
                p <= insert_at(s, x@),
                forall|k: int| 0 <= k < insert_at(s, x@) ==> !text_less(x@, #[trigger] s[k]),
                insert_at(s, x@) < s.len() ==> text_less(x@, s[insert_at(s, x@)]),
                0 <= insert_at(s, x@) <= s.len(),
            decreases r@.len() - p,
        {
            p += 1;
        }
        proof {
            if p < r@.len() {
                assert(s[p as int] == r@[p as int]@);
                if p < insert_at(s, x@) {
                    assert(!text_less(x@, s[p as int]));
                }
            }
        }
        assert(p == insert_at(s, x@));
        r.insert(p, copy_text(&names[i]));
        assert(texts(r@) =~= s.take(p as int) + seq![x@] + s.skip(p as int));
        i += 1;
    }
    assert(texts(names@).take(names@.len() as int) =~= texts(names@));
    r
}

/// The label of a definition: its file name without `.plist`.
pub open spec fn label_spec(name: Seq<char>) -> Seq<char> {
    if has_suffix(name, ".plist"@) {
        name.take(name.len() - 6)
    } else {
        name
    }
}

/// The label of a definition file.
pub fn label_from_filename(name: &str) -> (r: String)
    ensures
        r@ == label_spec(name@),
{
    proof {
        reveal_strlit(".plist");
    }
    let c = chars_of(name);
    if ends_with(c.as_slice(), chars_of(".plist").as_slice()) {
        string_of(crate::text::slice_to_vec(c.as_slice(), 0, c.len() - 6).as_slice())
    } else {
        string_of(c.as_slice())
    }
}

/// Whether a label is Apple's.
pub open spec fn apple_label(label: Seq<char>) -> bool {
    has_prefix(label, "com.apple."@)
}

/// The agent folders, with the title of their section.
pub open spec fn agent_dirs_spec(home: Seq<char>) -> Seq<(Seq<char>, Seq<char>)> {
    seq![
        ("LaunchAgents utilisateur"@, home + "/Library/LaunchAgents"@),
        ("LaunchAgents système"@, "/Library/LaunchAgents"@),
        ("LaunchDaemons système"@, "/Library/LaunchDaemons"@),
    ]
}

/// The agent folders, with the title of their section.
pub fn agent_dirs(home: &str) -> (r: Vec<(String, String)>)
    ensures
        r@.map_values(|d: (String, String)| (d.0@, d.1@)) == agent_dirs_spec(home@),
{
    let r = vec![
        (text("LaunchAgents utilisateur"), cat(home, "/Library/LaunchAgents")),
        (text("LaunchAgents système"), text("/Library/LaunchAgents")),
        (text("LaunchDaemons système"), text("/Library/LaunchDaemons")),
    ];
    assert(r@.map_values(|d: (String, String)| (d.0@, d.1@)) =~= agent_dirs_spec(home@));
    r
}

/// The definition files among a folder's entries.
pub open spec fn plists(names: Seq<Seq<char>>) -> Seq<Seq<char>>
    decreases names.len(),
{
    if names.len() == 0 {
        Seq::empty()
    } else if has_suffix(names.last(), ".plist"@) {
        plists(names.drop_last()).push(names.last())
    } else {
        plists(names.drop_last())
    }
}

fn plists_of(names: &Vec<String>) -> (r: Vec<String>)
    ensures
        texts(r@) == plists(texts(names@)),
{
    let mut r: Vec<String> = Vec::new();
    let mut i: usize = 0;
    let suffix = chars_of(".plist");
    while i < names.len()
        invariant
            i <= names@.len(),
            suffix@ == ".plist"@,
            texts(r@) == plists(texts(names@).take(i as int)),
        decreases names@.len() - i,
    {
        assert(texts(names@).take(i + 1).drop_last() =~= texts(names@).take(i as int));
        if ends_with(chars_of(names[i].as_str()).as_slice(), suffix.as_slice()) {
            push_line(&mut r, copy_text(&names[i]));
        }
        i += 1;
    }
    assert(texts(names@).take(names@.len() as int) =~= texts(names@));
    r
}

/// The line of one agent in the detailed list, and whether it is Apple's.
pub open spec fn detailed_line(name: Seq<char>, loaded: Seq<Seq<char>>) -> Seq<char> {
    let label = label_spec(name);
    "  ["@ + (if apple_label(label) { "Apple"@ } else { "Tiers"@ }) + "] "@ + label + " ("@
        + (if loaded.contains(label) { "actif"@ } else { "inactif"@ }) + ")"@
}

/// The lines of the agents of one section, with how many are Apple's and
/// how many are not.
pub open spec fn detailed_lines(names: Seq<Seq<char>>, loaded: Seq<Seq<char>>) -> (Seq<Seq<char>>, nat, nat)
    decreases names.len(),
{
    if names.len() == 0 {
        (Seq::empty(), 0, 0)
    } else {
        let a = detailed_lines(names.drop_last(), loaded);
        let apple = apple_label(label_spec(names.last()));
        (a.0.push(detailed_line(names.last(), loaded)), if apple { a.1 + 1 } else { a.1 }, if apple { a.2 } else { a.2 + 1 })
    }
}

/// One section of the detailed list: its title, then the folder's
/// definitions in name order, or why there are none.
pub open spec fn section_spec(title: Seq<char>, names: Option<Seq<Seq<char>>>, loaded: Seq<Seq<char>>) -> (Seq<Seq<char>>, nat, nat) {
    let head = seq!["── "@ + title + " ──"@];
    match names {
        None => (head.push("  (non trouvé)"@), 0, 0),
        Some(ns) => {
            let sorted = sorted_texts(plists(ns));
            if sorted.len() == 0 {
                (head.push("  (vide)"@), 0, 0)
            } else {
                let d = detailed_lines(sorted, loaded);
                (head + d.0, d.1, d.2)
            }
        },
    }
}

/// The whole detailed list over the sections (title, and the folder's
/// entries when it exists).
pub open spec fn detailed_spec(sections: Seq<(Seq<char>, Option<Seq<Seq<char>>>)>, loaded: Seq<Seq<char>>) -> (Seq<Seq<char>>, nat, nat)
    decreases sections.len(),
{
    if sections.len() == 0 {
        (Seq::empty(), 0, 0)
    } else {
        let a = detailed_spec(sections.drop_last(), loaded);
        let s = section_spec(sections.last().0, sections.last().1, loaded);
        (a.0 + s.0, a.1 + s.1, a.2 + s.2)
    }
}

/// A section as plain values.
pub open spec fn section_view(s: (String, Option<Vec<String>>)) -> (Seq<char>, Option<Seq<Seq<char>>>) {
    (s.0@, match s.1 {
        Some(v) => Some(texts(v@)),
        None => None,
    })
}

fn has_label(loaded: &Vec<String>, label: &Vec<char>) -> (r: bool)
    ensures
        r == texts(loaded@).contains(label@),
{
    let mut i: usize = 0;
    while i < loaded.len()
        invariant
            i <= loaded@.len(),
            forall|k: int| 0 <= k < i ==> texts(loaded@)[k] != label@,
        decreases loaded@.len() - i,
    {
        if chars_eq(chars_of(loaded[i].as_str()).as_slice(), label.as_slice()) {
            assert(texts(loaded@)[i as int] == label@);
            return true;
        }
        i += 1;
    }
    false
}

fn section_of(title: &String, names: &Option<Vec<String>>, loaded: &Vec<String>, log: &mut Vec<String>) -> (r: (u64, u64))
    requires
        texts(loaded@).len() == loaded@.len(),
    ensures
        ({
            let s = section_spec(title@, section_view((*title, *names)).1, texts(loaded@));
            &&& texts(final(log)@) == texts(old(log)@) + s.0
            &&& r.0 as nat == s.1
            &&& r.1 as nat == s.2
        }),
{
    let ghost start = texts(log@);
    push_line(log, cat3s("── ", title.as_str(), " ──"));
    let ghost head = texts(log@);
    match names {
        None => {
            push_line(log, text("  (non trouvé)"));
            assert(texts(log@) =~= start + seq!["── "@ + title@ + " ──"@].push("  (non trouvé)"@));
            (0, 0)
        },
        Some(ns) => {
            let sorted = sort_names(&plists_of(ns));
            if sorted.len() == 0 {
                push_line(log, text("  (vide)"));
                assert(texts(log@) =~= start + seq!["── "@ + title@ + " ──"@].push("  (vide)"@));
                return (0, 0);
            }
            let mut apple: u64 = 0;
            let mut others: u64 = 0;
            let mut i: usize = 0;
            while i < sorted.len()
                invariant
                    i <= sorted@.len(),
                    texts(log@) == head + detailed_lines(texts(sorted@).take(i as int), texts(loaded@)).0,
                    apple as nat == detailed_lines(texts(sorted@).take(i as int), texts(loaded@)).1,
                    others as nat == detailed_lines(texts(sorted@).take(i as int), texts(loaded@)).2,
                    apple + others <= i,
                decreases sorted@.len() - i,
            {
                assert(texts(sorted@).take(i + 1).drop_last() =~= texts(sorted@).take(i as int));
                let label = label_from_filename(sorted[i].as_str());
                let lc = chars_of(label.as_str());
                let is_apple = starts_with(lc.as_slice(), chars_of("com.apple.").as_slice());
                let active = has_label(loaded, &lc);
                let mut line = text("  [");
                push_str(&mut line, if is_apple { "Apple" } else { "Tiers" });
                push_str(&mut line, "] ");
                push_str(&mut line, label.as_str());
                push_str(&mut line, " (");
                push_str(&mut line, if active { "actif" } else { "inactif" });
                push_str(&mut line, ")");
                push_line(log, line);
                if is_apple {
                    apple += 1;
                } else {
                    others += 1;
                }
                i += 1;
            }
            assert(texts(sorted@).take(sorted@.len() as int) =~= texts(sorted@));
            (apple, others)
        },
    }
}

proof fn lemma_lines_counts(names: Seq<Seq<char>>, loaded: Seq<Seq<char>>)
    ensures
        detailed_lines(names, loaded).1 + detailed_lines(names, loaded).2 == detailed_lines(names, loaded).0.len(),
    decreases names.len(),
{
    if names.len() > 0 {
        lemma_lines_counts(names.drop_last(), loaded);
    }
}

proof fn lemma_detailed_counts(sections: Seq<(Seq<char>, Option<Seq<Seq<char>>>)>, loaded: Seq<Seq<char>>)
    ensures
        detailed_spec(sections, loaded).1 + detailed_spec(sections, loaded).2 <= detailed_spec(sections, loaded).0.len(),
    decreases sections.len(),
{
    if sections.len() > 0 {
        lemma_detailed_counts(sections.drop_last(), loaded);
        match sections.last().1 {
            Some(ns) => lemma_lines_counts(sorted_texts(plists(ns)), loaded),
            None => {},
        }
    }
}

fn cat3s(a: &str, b: &str, c: &str) -> (r: String)
    ensures
        r@ == a@ + b@ + c@,
{
    let mut r = text(a);
    push_str(&mut r, b);
    push_str(&mut r, c);
    r
}

/// The detailed list of startup agents: each section with its agents in
/// name order, tagged Apple or third party and active or not, then the
/// totals.
pub fn list_login_items_detailed(sections: &Vec<(String, Option<Vec<String>>)>, loaded: &Vec<String>) -> (r: Vec<String>)
    ensures
        ({
            let d = detailed_spec(sections@.map_values(|s: (String, Option<Vec<String>>)| section_view(s)), texts(loaded@));
            texts(r@) == d.0 + seq![Seq::empty(), "Total: "@ + decimal(d.1) + " Apple, "@ + decimal(d.2) + " tiers"@]
        }),
{
    let ghost vs = sections@.map_values(|s: (String, Option<Vec<String>>)| section_view(s));
    let mut log: Vec<String> = Vec::new();
    let mut apple: u64 = 0;
    let mut others: u64 = 0;
    let mut i: usize = 0;
    while i < sections.len()
        invariant
            i <= sections@.len(),
            vs == sections@.map_values(|s: (String, Option<Vec<String>>)| section_view(s)),
            texts(log@) == detailed_spec(vs.take(i as int), texts(loaded@)).0,
            apple + others <= log@.len(),
            apple as nat == detailed_spec(vs.take(i as int), texts(loaded@)).1,
            others as nat == detailed_spec(vs.take(i as int), texts(loaded@)).2,
        decreases sections@.len() - i,
    {
        assert(vs.take(i + 1).drop_last() =~= vs.take(i as int));
        let (a, o) = section_of(&sections[i].0, &sections[i].1, loaded, &mut log);
        let _n = log.len();
        proof {
            lemma_detailed_counts(vs.take(i + 1), texts(loaded@));
        }
        apple = apple + a;
        others = others + o;
        i += 1;
    }
    assert(vs.take(sections@.len() as int) =~= vs);
    let blank = String::new();
    assert(blank@ =~= Seq::<char>::empty());
    push_line(&mut log, blank);
    let mut line = text("Total: ");
    push_decimal(&mut line, apple);
    push_str(&mut line, " Apple, ");
    push_decimal(&mut line, others);
    push_str(&mut line, " tiers");
    push_line(&mut log, line);
    log
}

/// The third-party agents of one section: each one's line, under the
/// section title given before the first.
pub open spec fn third_party_lines(title: Seq<char>, names: Seq<Seq<char>>, loaded: Seq<Seq<char>>) -> Seq<Seq<char>>
    decreases names.len(),
{
    if names.len() == 0 {
        Seq::empty()
    } else {
        let rest = third_party_lines(title, names.drop_last(), loaded);
        let label = label_spec(names.last());
        if apple_label(label) {
            rest
        } else {
            (if rest.len() == 0 { seq!["── "@ + title + " ──"@] } else { rest }).push("  "@ + label + " ("@
                + (if loaded.contains(label) { "actif"@ } else { "inactif"@ }) + ")"@)
        }
    }
}

/// How many of the definitions are not Apple's.
pub open spec fn third_party_count(names: Seq<Seq<char>>) -> nat
    decreases names.len(),
{
    if names.len() == 0 {
        0
    } else {
        third_party_count(names.drop_last()) + if apple_label(label_spec(names.last())) { 0nat } else { 1nat }
    }
}

/// The third-party list over the sections: the lines and the count.
pub open spec fn third_party_spec(sections: Seq<(Seq<char>, Option<Seq<Seq<char>>>)>, loaded: Seq<Seq<char>>) -> (Seq<Seq<char>>, nat)
    decreases sections.len(),
{
    if sections.len() == 0 {
        (Seq::empty(), 0)
    } else {
        let a = third_party_spec(sections.drop_last(), loaded);
        match sections.last().1 {
            None => a,
            Some(ns) => {
                let sorted = sorted_texts(plists(ns));
                (a.0 + third_party_lines(sections.last().0, sorted, loaded), a.1 + third_party_count(sorted))
            },
        }
    }
}

proof fn lemma_third_party_lines(title: Seq<char>, names: Seq<Seq<char>>, loaded: Seq<Seq<char>>)
    ensures
        third_party_count(names) == 0 <==> third_party_lines(title, names, loaded).len() == 0,
        third_party_count(names) <= third_party_lines(title, names, loaded).len(),
    decreases names.len(),
{
    if names.len() > 0 {
        lemma_third_party_lines(title, names.drop_last(), loaded);
    }
}

proof fn lemma_third_party_spec(sections: Seq<(Seq<char>, Option<Seq<Seq<char>>>)>, loaded: Seq<Seq<char>>)
    ensures
        third_party_spec(sections, loaded).1 <= third_party_spec(sections, loaded).0.len(),
    decreases sections.len(),
{
    if sections.len() > 0 {
        lemma_third_party_spec(sections.drop_last(), loaded);
        match sections.last().1 {
            Some(ns) => lemma_third_party_lines(sections.last().0, sorted_texts(plists(ns)), loaded),
            None => {},
        }
    }
}

/// The third-party agents, section by section, then how many there are.
pub fn list_third_party_agents(sections: &Vec<(String, Option<Vec<String>>)>, loaded: &Vec<String>) -> (r: Vec<String>)
    ensures
        ({
            let t = third_party_spec(sections@.map_values(|s: (String, Option<Vec<String>>)| section_view(s)), texts(loaded@));
            texts(r@) == t.0 + if t.1 == 0 {
                seq!["Aucun agent tiers trouvé."@]
            } else {
                seq!["\n"@ + decimal(t.1) + " agent(s) tiers au total"@]
            }
        }),
{
    let ghost vs = sections@.map_values(|s: (String, Option<Vec<String>>)| section_view(s));
    let mut log: Vec<String> = Vec::new();
    let mut count: u64 = 0;
    let mut i: usize = 0;
    while i < sections.len()
        invariant
            i <= sections@.len(),
            vs == sections@.map_values(|s: (String, Option<Vec<String>>)| section_view(s)),
            texts(log@) == third_party_spec(vs.take(i as int), texts(loaded@)).0,
            count as nat == third_party_spec(vs.take(i as int), texts(loaded@)).1,
            count <= log@.len(),
        decreases sections@.len() - i,
    {
        assert(vs.take(i + 1).drop_last() =~= vs.take(i as int));
        let ghost start = texts(log@);
        match &sections[i].1 {
            None => {},
            Some(ns) => {
                let sorted = sort_names(&plists_of(ns));
                let mut k: usize = 0;
                let mut here: u64 = 0;
                let ghost title = sections@[i as int].0@;
                proof {
                    lemma_third_party_spec(vs.take(i as int), texts(loaded@));
                }
                while k < sorted.len()
                    invariant
                        k <= sorted@.len(),
                        i < sections@.len(),
                        title == sections@[i as int].0@,
                        texts(log@) == start + third_party_lines(title, texts(sorted@).take(k as int), texts(loaded@)),
                        here as nat == third_party_count(texts(sorted@).take(k as int)),
                        count + here <= log@.len(),
                    decreases sorted@.len() - k,
                {
                    assert(texts(sorted@).take(k + 1).drop_last() =~= texts(sorted@).take(k as int));
                    let label = label_from_filename(sorted[k].as_str());
                    let lc = chars_of(label.as_str());
                    if !starts_with(lc.as_slice(), chars_of("com.apple.").as_slice()) {
                        proof {
                            lemma_third_party_lines(title, texts(sorted@).take(k as int), texts(loaded@));
                        }
                        if here == 0 {
                            push_line(&mut log, cat3s("── ", sections[i].0.as_str(), " ──"));
                        }
                        let active = has_label(loaded, &lc);
                        let mut line = text("  ");
                        push_str(&mut line, label.as_str());
                        push_str(&mut line, " (");
                        push_str(&mut line, if active { "actif" } else { "inactif" });
                        push_str(&mut line, ")");
                        let ghost before_len = log@.len();
                        push_line(&mut log, line);
                        let n = log.len();
                        assert(texts(log@).len() == log@.len());
                        assert(n as int >= before_len + 1);
                        assert(count + here + 1 <= n);
                        here = here + 1;
                    }
                    k += 1;
                }
                assert(texts(sorted@).take(sorted@.len() as int) =~= texts(sorted@));
                let _n = log.len();
                count = count + here;
            },
        }
        i += 1;
    }
    assert(vs.take(sections@.len() as int) =~= vs);
    if count == 0 {
        push_line(&mut log, text("Aucun agent tiers trouvé."));
    } else {
        let mut line = text("\n");
        push_decimal(&mut line, count);
        push_str(&mut line, " agent(s) tiers au total");
        push_line(&mut log, line);
    }
    log
}

/// The definitions among a folder's entries that are not Apple's, in the
/// order they were listed: what disabling or enabling acts on.
pub open spec fn third_party_plists(names: Seq<Seq<char>>) -> Seq<Seq<char>>
    decreases names.len(),
{
    if names.len() == 0 {
        Seq::empty()
    } else {
        let rest = third_party_plists(names.drop_last());
        if has_suffix(names.last(), ".plist"@) && !apple_label(label_spec(names.last())) {
            rest.push(names.last())
        } else {
            rest
        }
    }
}

/// The third-party definitions among a folder's entries.
pub fn third_party(names: &Vec<String>) -> (r: Vec<String>)
    ensures
        texts(r@) == third_party_plists(texts(names@)),
{
    let mut r: Vec<String> = Vec::new();
    let mut i: usize = 0;
    let suffix = chars_of(".plist");
    while i < names.len()
        invariant
            i <= names@.len(),
            suffix@ == ".plist"@,
            texts(r@) == third_party_plists(texts(names@).take(i as int)),
        decreases names@.len() - i,
    {
        assert(texts(names@).take(i + 1).drop_last() =~= texts(names@).take(i as int));
        let label = label_from_filename(names[i].as_str());
        if ends_with(chars_of(names[i].as_str()).as_slice(), suffix.as_slice())
            && !starts_with(chars_of(label.as_str()).as_slice(), chars_of("com.apple.").as_slice()) {
            push_line(&mut r, copy_text(&names[i]));
        }
        i += 1;
    }
    assert(texts(names@).take(names@.len() as int) =~= texts(names@));
    r
}

/// What `launchctl` answered, for the report: nothing when it worked or said
/// nothing, a warning with its error output, or an error when it could not
/// run.
pub open spec fn launchctl_lines(r: Result<crate::sys::cmd::Output, String>) -> Seq<Seq<char>> {
    match r {
        Ok(o) => if o.code == 0 || crate::text::trim(o.stderr@).len() == 0 {
            Seq::empty()
        } else {
            seq!["    Avertissement: "@ + crate::text::trim(o.stderr@)]
        },
        Err(e) => seq!["    Erreur: "@ + e@],
    }
}

/// The lines for each agent switched: its name, then, unless simulating,
/// what `launchctl` answered.
pub open spec fn switch_lines(disable: bool, names: Seq<Seq<char>>, dry_run: bool, results: Seq<Result<crate::sys::cmd::Output, String>>) -> Seq<Seq<char>>
    decreases names.len(),
{
    if names.len() == 0 {
        Seq::empty()
    } else {
        let n = names.len() - 1;
        let label = label_spec(names[n]);
        let verb = if disable { "Désactivation: "@ } else { "Réactivation: "@ };
        switch_lines(disable, names.drop_last(), dry_run, results) + if dry_run {
            seq!["  [SIMULATION] "@ + verb + label]
        } else {
            seq!["  "@ + verb + label] + launchctl_lines(results[n])
        }
    }
}

/// The report of switching third-party agents off (`disable`) or back on,
/// from the definitions acted on, in order, and unless simulating what
/// `launchctl` answered for each.
pub open spec fn switch_spec(disable: bool, names: Seq<Seq<char>>, dry_run: bool, results: Seq<Result<crate::sys::cmd::Output, String>>) -> Seq<Seq<char>> {
    switch_lines(disable, names, dry_run, results) + seq![if names.len() == 0 {
        if disable { "Aucun agent tiers à désactiver."@ } else { "Aucun agent tiers à réactiver."@ }
    } else {
        decimal(names.len()) + " agent(s) tiers "@ + if disable {
            if dry_run { "seraient désactivé(s)."@ } else { "désactivé(s)."@ }
        } else {
            if dry_run { "seraient réactivé(s)."@ } else { "réactivé(s)."@ }
        }
    }]
}

fn switch(disable: bool, names: &Vec<String>, dry_run: bool, results: &Vec<Result<crate::sys::cmd::Output, String>>) -> (r: Vec<String>)
    requires
        dry_run || results@.len() == names@.len(),
    ensures
        texts(r@) == switch_spec(disable, texts(names@), dry_run, results@),
{
    let mut log: Vec<String> = Vec::new();
    let mut i: usize = 0;
    while i < names.len()
        invariant
            i <= names@.len(),
            dry_run || results@.len() == names@.len(),
            texts(log@) == switch_lines(disable, texts(names@).take(i as int), dry_run, results@),
        decreases names@.len() - i,
    {
        assert(texts(names@).take(i + 1).drop_last() =~= texts(names@).take(i as int));
        let label = label_from_filename(names[i].as_str());
        let verb = if disable { "Désactivation: " } else { "Réactivation: " };
        let ghost start = texts(log@);
        if dry_run {
            push_line(&mut log, cat3s("  [SIMULATION] ", verb, label.as_str()));
        } else {
            push_line(&mut log, cat3s("  ", verb, label.as_str()));
            match &results[i] {
                Ok(o) => {
                    let err = crate::text::trim_chars(chars_of(o.stderr.as_str()).as_slice());
                    if o.code != 0 && err.len() > 0 {
                        let mut line = text("    Avertissement: ");
                        crate::text::push_chars(&mut line, err.as_slice());
                        push_line(&mut log, line);
                    }
                },
                Err(e) => push_line(&mut log, cat("    Erreur: ", e.as_str())),
            }
        }
        proof {
            let n = texts(names@).take(i + 1);
            assert(n.drop_last() =~= texts(names@).take(i as int));
            assert(texts(log@) =~= switch_lines(disable, n, dry_run, results@));
        }
        i += 1;
    }
    assert(texts(names@).take(names@.len() as int) =~= texts(names@));
    let ghost body = texts(log@);
    if names.len() == 0 {
        push_line(&mut log, text(if disable { "Aucun agent tiers à désactiver." } else { "Aucun agent tiers à réactiver." }));
    } else {
        let mut line = String::new();
        push_decimal(&mut line, names.len() as u64);
        push_str(&mut line, " agent(s) tiers ");
        push_str(&mut line, if disable {
            if dry_run { "seraient désactivé(s)." } else { "désactivé(s)." }
        } else {
            if dry_run { "seraient réactivé(s)." } else { "réactivé(s)." }
        });
        push_line(&mut log, line);
    }
    assert(texts(log@) =~= switch_spec(disable, texts(names@), dry_run, results@));
    log
}

/// The report of disabling third-party agents (`launchctl unload -w`).
pub fn disable_third_party_agents(names: &Vec<String>, dry_run: bool, results: &Vec<Result<crate::sys::cmd::Output, String>>) -> (r: Vec<String>)
    requires
        dry_run || results@.len() == names@.len(),
    ensures
        texts(r@) == switch_spec(true, texts(names@), dry_run, results@),
{
    switch(true, names, dry_run, results)
}

/// The report of enabling third-party agents again (`launchctl load -w`).
pub fn enable_third_party_agents(names: &Vec<String>, dry_run: bool, results: &Vec<Result<crate::sys::cmd::Output, String>>) -> (r: Vec<String>)
    requires
        dry_run || results@.len() == names@.len(),
    ensures
        texts(r@) == switch_spec(false, texts(names@), dry_run, results@),
{
    switch(false, names, dry_run, results)
}

} // verus!
